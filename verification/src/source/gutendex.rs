//! Project Gutenberg, via the Gutendex JSON API (<https://gutendex.com>).
//!
//! Public-domain texts, no API key, direct download links. Note the host 301s,
//! so the client must follow redirects.

use vstd::prelude::*;

use crate::number;
use crate::order;
use crate::source::{Book, BookView, Download, DownloadView, Format, FormatView};
use crate::source::{Request, RequestView, SearchResults, Source};
use crate::text;
use crate::words;

verus! {

broadcast use {
    crate::text::lemma_texts_push,
    crate::source::lemma_downloads_push,
    crate::source::lemma_books_push,
};

/// The address of the catalog.
pub const BASE_URL: &'static str = "https://gutendex.com/books";

/// How many books the catalog lists on one page.
pub const PAGE_SIZE: usize = 32;

/// The Gutendex catalog.
#[derive(Debug)]
pub struct Gutendex;

impl Default for Gutendex {
    fn default() -> (r: Gutendex)
        ensures
            r == Gutendex,
    {
        Gutendex
    }
}

impl Source for Gutendex {
    open spec fn tag(&self) -> Seq<char> {
        "gutenberg"@
    }

    fn name(&self) -> (r: &'static str) {
        "gutenberg"
    }
}

/// The search for `query`, as the catalog understands it.
pub fn search_request(query: &str, page: usize) -> (r: Request)
    ensures
        r@ == (RequestView {
            url: BASE_URL@,
            params: seq![
                ("search"@, query@),
                ("page"@, number::decimal(crate::source::page_number(page))),
            ],
        }),
{
    let mut params: Vec<(&'static str, String)> = Vec::new();
    params.push(("search", query.to_owned()));
    params.push(("page", crate::source::page_text(page)));
    let r = Request { url: BASE_URL, params };
    assert(r@.params =~= seq![
        ("search"@, query@),
        ("page"@, number::decimal(crate::source::page_number(page))),
    ]);
    r
}

/// For how many files of a book the size is asked for: all of them.
pub const SIZED_FILES: usize = usize::MAX;

// ---- the reply --------------------------------------------------------------------

/// One page of the catalog's reply.
#[derive(Debug)]
pub struct SearchResponse {
    pub count: usize,
    pub results: Vec<Item>,
}

/// A person who wrote a book.
#[derive(Debug)]
pub struct Author {
    pub name: String,
}

/// One book of the reply. The formats are pairs of media type and address, in
/// any order.
#[derive(Debug)]
pub struct Item {
    pub id: u64,
    pub title: String,
    pub authors: Vec<Author>,
    pub languages: Vec<String>,
    pub formats: Vec<(String, String)>,
}

/// The mathematical counterpart of [`Item`].
pub struct ItemView {
    pub id: u64,
    pub title: Seq<char>,
    pub authors: Seq<Seq<char>>,
    pub languages: Seq<Seq<char>>,
    pub formats: Seq<(Seq<char>, Seq<char>)>,
}

/// What a list of pairs holds.
pub open spec fn pairs_view(list: Seq<(String, String)>) -> Seq<(Seq<char>, Seq<char>)> {
    Seq::new(list.len(), |i: int| (list[i].0@, list[i].1@))
}

impl View for Item {
    type V = ItemView;

    open spec fn view(&self) -> ItemView {
        ItemView {
            id: self.id,
            title: self.title@,
            authors: Seq::new(self.authors@.len(), |i: int| self.authors@[i].name@),
            languages: text::texts(self.languages@),
            formats: pairs_view(self.formats@),
        }
    }
}

// ---- formats ----------------------------------------------------------------------

/// The format of a media type that may carry parameters.
pub open spec fn format_of(mime: Seq<char>) -> FormatView {
    FormatView::of_media_type(text::trimmed(words::pieces(mime, seq![';']).first()))
}

/// The pair is a file to offer. The catalog also lists archives, cover images
/// and metadata.
pub open spec fn is_offered(pair: (Seq<char>, Seq<char>)) -> bool {
    !text::has_suffix(pair.1, ".zip"@) && !(format_of(pair.0) is Other)
}

/// The downloads that the pairs offer, in the same order.
pub open spec fn offered(pairs: Seq<(Seq<char>, Seq<char>)>) -> Seq<DownloadView>
    decreases pairs.len(),
{
    if pairs.len() == 0 {
        Seq::empty()
    } else {
        let before = offered(pairs.drop_last());
        let pair = pairs.last();
        if is_offered(pair) {
            before.push(DownloadView { format: format_of(pair.0), url: pair.1, size: None })
        } else {
            before
        }
    }
}

/// The file extensions of the downloads.
pub open spec fn extensions(downloads: Seq<DownloadView>) -> Seq<Seq<char>> {
    Seq::new(downloads.len(), |i: int| downloads[i].format.extension())
}

/// The addresses of the downloads.
pub open spec fn addresses(downloads: Seq<DownloadView>) -> Seq<Seq<char>> {
    Seq::new(downloads.len(), |i: int| downloads[i].url)
}

/// The downloads in the order of their addresses.
pub open spec fn by_address(downloads: Seq<DownloadView>) -> Seq<DownloadView> {
    order::arranged(downloads, addresses(downloads))
}

/// The downloads in the order of their file extensions; downloads with the same
/// extension keep their order.
pub open spec fn by_extension(downloads: Seq<DownloadView>) -> Seq<DownloadView> {
    order::arranged(downloads, extensions(downloads))
}

/// The downloads as they are presented: in the order of their file extensions,
/// and of their addresses where the extensions are the same.
pub open spec fn presented(downloads: Seq<DownloadView>) -> Seq<DownloadView> {
    by_extension(by_address(downloads))
}

fn offered_downloads(pairs: Vec<(String, String)>) -> (r: Vec<Download>)
    ensures
        crate::source::downloads_view(r@) == offered(pairs_view(pairs@)),
{
    let ghost all = pairs_view(pairs@);
    let mut out: Vec<Download> = Vec::new();
    assert(all.take(0) =~= Seq::<(Seq<char>, Seq<char>)>::empty());
    assert(crate::source::downloads_view(out@) =~= offered(all.take(0)));
    for pair in it: pairs
        invariant
            it.seq() == pairs@,
            all == pairs_view(pairs@),
            crate::source::downloads_view(out@) == offered(all.take(it.index() as int)),
    {
        let ghost i = it.index() as int;
        assert(all.take(i + 1).drop_last() =~= all.take(i));
        assert(all.take(i + 1).last() == (pair.0@, pair.1@));
        let (mime, url) = pair;
        if !text::ends_with(url.as_str(), ".zip") {
            match Format::from_mime(mime.as_str()) {
                Format::Other(_) => {},
                format => out.push(Download { format, url, size: None }),
            }
        }
    }
    assert(all.take(pairs@.len() as int) =~= all);
    out
}

fn arrange(downloads: &Vec<Download>, keys: &Vec<String>) -> (r: Vec<Download>)
    requires
        downloads@.len() == keys@.len(),
    ensures
        crate::source::downloads_view(r@) == order::arranged(
            crate::source::downloads_view(downloads@),
            text::texts(keys@),
        ),
        r@.len() == downloads@.len(),
{
    let ghost all = crate::source::downloads_view(downloads@);
    let ghost wanted = text::texts(keys@);
    let places = order::sorted_places(keys);
    let mut out: Vec<Download> = Vec::new();
    let mut k: usize = 0;
    while k < places.len()
        invariant
            k <= places@.len(),
            all == crate::source::downloads_view(downloads@),
            wanted.len() == all.len(),
            order::places_view(places@) == order::places(wanted),
            order::sorts(wanted, order::places_view(places@)),
            out@.len() == k,
            forall|j: int| 0 <= j < k ==> #[trigger] out@[j]@ == order::arranged(all, wanted)[j],
        decreases places@.len() - k,
    {
        assert(0 <= order::places_view(places@)[k as int] < all.len());
        out.push(downloads[places[k]].clone());
        k += 1;
    }
    assert(crate::source::downloads_view(out@) =~= order::arranged(all, wanted));
    out
}

fn sort_by_address(downloads: &Vec<Download>) -> (r: Vec<Download>)
    ensures
        crate::source::downloads_view(r@) == by_address(crate::source::downloads_view(downloads@)),
{
    let ghost all = crate::source::downloads_view(downloads@);
    let mut keys: Vec<String> = Vec::new();
    let mut i: usize = 0;
    while i < downloads.len()
        invariant
            i <= downloads@.len(),
            all == crate::source::downloads_view(downloads@),
            text::texts(keys@) == addresses(all).take(i as int),
        decreases downloads@.len() - i,
    {
        keys.push(downloads[i].url.clone());
        assert(text::texts(keys@) =~= addresses(all).take(i + 1));
        i += 1;
    }
    assert(addresses(all).take(i as int) =~= addresses(all));
    assert(text::texts(keys@).len() == keys@.len());
    arrange(downloads, &keys)
}

fn sort_by_extension(downloads: &Vec<Download>) -> (r: Vec<Download>)
    ensures
        crate::source::downloads_view(r@) == by_extension(
            crate::source::downloads_view(downloads@),
        ),
{
    let ghost all = crate::source::downloads_view(downloads@);
    let mut keys: Vec<String> = Vec::new();
    let mut i: usize = 0;
    while i < downloads.len()
        invariant
            i <= downloads@.len(),
            all == crate::source::downloads_view(downloads@),
            text::texts(keys@) == extensions(all).take(i as int),
        decreases downloads@.len() - i,
    {
        keys.push(downloads[i].format.extension().to_owned());
        assert(text::texts(keys@) =~= extensions(all).take(i + 1));
        i += 1;
    }
    assert(extensions(all).take(i as int) =~= extensions(all));
    assert(text::texts(keys@).len() == keys@.len());
    arrange(downloads, &keys)
}

// ---- languages --------------------------------------------------------------------

/// The English name of a language, or the code itself where it is unknown.
pub open spec fn name_of_language(code: Seq<char>) -> Seq<char> {
    if code == "en"@ {
        "English"@
    } else if code == "fr"@ {
        "French"@
    } else if code == "de"@ {
        "German"@
    } else if code == "es"@ {
        "Spanish"@
    } else if code == "it"@ {
        "Italian"@
    } else if code == "pt"@ {
        "Portuguese"@
    } else if code == "nl"@ {
        "Dutch"@
    } else if code == "ru"@ {
        "Russian"@
    } else if code == "pl"@ {
        "Polish"@
    } else if code == "cs"@ {
        "Czech"@
    } else if code == "sr"@ {
        "Serbian"@
    } else if code == "hr"@ {
        "Croatian"@
    } else if code == "bs"@ {
        "Bosnian"@
    } else if code == "zh"@ {
        "Chinese"@
    } else if code == "ja"@ {
        "Japanese"@
    } else if code == "la"@ {
        "Latin"@
    } else if code == "el"@ {
        "Greek"@
    } else if code == "fi"@ {
        "Finnish"@
    } else if code == "sv"@ {
        "Swedish"@
    } else if code == "da"@ {
        "Danish"@
    } else if code == "no"@ {
        "Norwegian"@
    } else if code == "hu"@ {
        "Hungarian"@
    } else if code == "ar"@ {
        "Arabic"@
    } else if code == "he"@ {
        "Hebrew"@
    } else {
        code
    }
}

/// The English name of a language, or the code itself where it is unknown.
pub fn language_name(code: &str) -> (r: &str)
    ensures
        r@ == name_of_language(code@),
{
    if text::same(code, "en") {
        "English"
    } else if text::same(code, "fr") {
        "French"
    } else if text::same(code, "de") {
        "German"
    } else if text::same(code, "es") {
        "Spanish"
    } else if text::same(code, "it") {
        "Italian"
    } else if text::same(code, "pt") {
        "Portuguese"
    } else if text::same(code, "nl") {
        "Dutch"
    } else if text::same(code, "ru") {
        "Russian"
    } else if text::same(code, "pl") {
        "Polish"
    } else if text::same(code, "cs") {
        "Czech"
    } else if text::same(code, "sr") {
        "Serbian"
    } else if text::same(code, "hr") {
        "Croatian"
    } else if text::same(code, "bs") {
        "Bosnian"
    } else if text::same(code, "zh") {
        "Chinese"
    } else if text::same(code, "ja") {
        "Japanese"
    } else if text::same(code, "la") {
        "Latin"
    } else if text::same(code, "el") {
        "Greek"
    } else if text::same(code, "fi") {
        "Finnish"
    } else if text::same(code, "sv") {
        "Swedish"
    } else if text::same(code, "da") {
        "Danish"
    } else if text::same(code, "no") {
        "Norwegian"
    } else if text::same(code, "hu") {
        "Hungarian"
    } else if text::same(code, "ar") {
        "Arabic"
    } else if text::same(code, "he") {
        "Hebrew"
    } else {
        code
    }
}

/// The names of the languages on one line, unless there are none.
pub open spec fn language_line(codes: Seq<Seq<char>>) -> Option<Seq<char>> {
    if codes.len() == 0 {
        None
    } else {
        Some(
            words::joined(
                Seq::new(codes.len(), |i: int| name_of_language(codes[i])),
                ", "@,
            ),
        )
    }
}

/// The names of the languages on one line, unless there are none.
pub fn languages(codes: &Vec<String>) -> (r: Option<String>)
    ensures
        text::text_in(r) == language_line(text::texts(codes@)),
{
    let ghost all = text::texts(codes@);
    let ghost names_all = Seq::new(all.len(), |i: int| name_of_language(all[i]));
    if codes.len() == 0 {
        return None;
    }
    let mut names: Vec<String> = Vec::new();
    let mut i: usize = 0;
    while i < codes.len()
        invariant
            i <= codes@.len(),
            all == text::texts(codes@),
            names_all == Seq::new(all.len(), |i: int| name_of_language(all[i])),
            text::texts(names@) == names_all.take(i as int),
        decreases codes@.len() - i,
    {
        assert(all[i as int] == codes@[i as int]@);
        names.push(language_name(codes[i].as_str()).to_owned());
        assert(text::texts(names@) =~= names_all.take(i + 1));
        i += 1;
    }
    assert(names_all.take(i as int) =~= names_all);
    Some(words::join(&names, ", "))
}

// ---- books ------------------------------------------------------------------------

/// The book that an item describes.
pub open spec fn item_book(item: ItemView) -> BookView {
    BookView {
        source: "gutenberg"@,
        id: number::decimal(item.id as nat),
        title: item.title,
        authors: item.authors,
        language: language_line(item.languages),
        downloads: presented(offered(item.formats)),
    }
}

impl Item {
    /// The book that the item describes.
    pub fn into_book(self) -> (r: Book)
        ensures
            r@ == item_book(self@),
    {
        let ghost item = self@;
        let ghost people = self.authors@;
        let language = languages(&self.languages);
        let mut authors: Vec<String> = Vec::new();
        for author in it: self.authors
            invariant
                it.seq() == people,
                authors@.len() == it.index(),
                forall|k: int| 0 <= k < authors@.len() ==> #[trigger] authors@[k]@ == people[k].name@,
        {
            authors.push(author.name);
        }
        assert(text::texts(authors@) =~= item.authors);
        let found = offered_downloads(self.formats);
        let downloads = sort_by_extension(&sort_by_address(&found));
        Book {
            source: "gutenberg",
            id: number::to_decimal(self.id),
            title: self.title,
            authors,
            language,
            downloads,
        }
    }
}

/// The number of pages that hold `count` books, at least one.
pub open spec fn pages_for(count: nat) -> nat {
    if count == 0 {
        1
    } else {
        ((count + PAGE_SIZE - 1) / PAGE_SIZE as int) as nat
    }
}

/// Every book has its page, and no page but the first is empty.
pub proof fn law_pages_hold_all_books(count: nat)
    ensures
        pages_for(count) >= 1,
        pages_for(count) * PAGE_SIZE >= count,
        pages_for(count) > 1 ==> (pages_for(count) - 1) * PAGE_SIZE < count,
{
}

/// The number of pages that hold `count` books, at least one.
pub fn total_pages(count: usize) -> (r: usize)
    ensures
        r == pages_for(count as nat),
{
    if count == 0 {
        1
    } else {
        let rest: usize = if count % PAGE_SIZE == 0 {
            0
        } else {
            1
        };
        count / PAGE_SIZE + rest
    }
}

/// How many of the books are taken.
pub open spec fn taken(found: nat, limit: nat) -> nat {
    if found <= limit {
        found
    } else {
        limit
    }
}

/// One page of results, without the sizes of the files.
pub fn results(response: SearchResponse, limit: usize) -> (r: SearchResults)
    ensures
        r.total_pages == Some(pages_for(response.count as nat) as usize),
        crate::source::books_view(r.books@) == Seq::new(
            taken(response.results@.len(), limit as nat),
            |i: int| item_book(response.results@[i]@),
        ),
{
    let ghost all = response.results@;
    let pages: usize = total_pages(response.count);
    let mut books: Vec<Book> = Vec::new();
    for item in it: response.results
        invariant
            it.seq() == all,
            books@.len() == taken(it.index() as nat, limit as nat),
            forall|i: int| 0 <= i < books@.len() ==> (#[trigger] books@[i])@ == item_book(all[i]@),
    {
        if books.len() < limit {
            books.push(item.into_book());
        }
    }
    assert(crate::source::books_view(books@) =~= Seq::new(
        taken(all.len(), limit as nat),
        |i: int| item_book(all[i]@),
    ));
    SearchResults { books, total_pages: Some(pages) }
}

// ---- laws -------------------------------------------------------------------------

/// The extension of a download and its address, by which it is presented.
pub open spec fn sort_key(download: DownloadView) -> (Seq<char>, Seq<char>) {
    (download.format.extension(), download.url)
}

/// The key `a` comes before the key `b`, or equals it: by the extension, and by
/// the address where the extensions are the same.
pub open spec fn key_at_most(a: (Seq<char>, Seq<char>), b: (Seq<char>, Seq<char>)) -> bool {
    if a.0 == b.0 {
        order::at_most(a.1, b.1)
    } else {
        order::at_most(a.0, b.0)
    }
}

spec fn sort_keys(downloads: Seq<DownloadView>) -> Seq<(Seq<char>, Seq<char>)> {
    Seq::new(downloads.len(), |i: int| sort_key(downloads[i]))
}

proof fn lemma_key_order()
    ensures
        vstd::relations::total_ordering(
            |a: (Seq<char>, Seq<char>), b: (Seq<char>, Seq<char>)| key_at_most(a, b),
        ),
{
    let leq = |a: (Seq<char>, Seq<char>), b: (Seq<char>, Seq<char>)| key_at_most(a, b);
    assert forall|a: (Seq<char>, Seq<char>)| #[trigger] leq(a, a) by {
        order::lemma_at_most_reflexive(a.1);
    }
    assert forall|a: (Seq<char>, Seq<char>), b: (Seq<char>, Seq<char>)| #[trigger]
        leq(a, b) && #[trigger] leq(b, a) implies a == b by {
        order::lemma_at_most_total(a.0, b.0);
        order::lemma_at_most_total(a.1, b.1);
    }
    assert forall|
        a: (Seq<char>, Seq<char>),
        b: (Seq<char>, Seq<char>),
        c: (Seq<char>, Seq<char>),
    | #[trigger] leq(a, b) && #[trigger] leq(b, c) implies leq(a, c) by {
        if a.0 == b.0 && b.0 == c.0 {
            order::lemma_at_most_transitive(a.1, b.1, c.1);
        } else if a.0 != b.0 && b.0 != c.0 {
            order::lemma_at_most_transitive(a.0, b.0, c.0);
            order::lemma_at_most_total(a.0, b.0);
        }
    }
    assert forall|a: (Seq<char>, Seq<char>), b: (Seq<char>, Seq<char>)| #[trigger]
        leq(a, b) || leq(b, a) by {
        order::lemma_at_most_total(a.0, b.0);
        order::lemma_at_most_total(a.1, b.1);
    }
}

/// A book presents its files in the order of their extensions, and of their
/// addresses where the extensions are the same.
pub proof fn law_formats_are_sorted(item: ItemView, i: int, j: int)
    requires
        0 <= i < j < item_book(item).downloads.len(),
    ensures
        key_at_most(
            sort_key(item_book(item).downloads[i]),
            sort_key(item_book(item).downloads[j]),
        ),
{
    lemma_presented(offered(item.formats), i, j);
}

proof fn lemma_presented(list: Seq<DownloadView>, i: int, j: int)
    requires
        0 <= i < j < list.len(),
    ensures
        key_at_most(sort_key(presented(list)[i]), sort_key(presented(list)[j])),
{
    let first = by_address(list);
    let inner = order::places(addresses(list));
    let outer = order::places(extensions(first));
    order::lemma_places(addresses(list));
    order::lemma_places(extensions(first));
    assert(order::precedes(extensions(first), outer[i], outer[j]));
    if extensions(first)[outer[i]] == extensions(first)[outer[j]] {
        assert(order::precedes(addresses(list), inner[outer[i]], inner[outer[j]]));
    }
}

proof fn lemma_presented_keys(list: Seq<DownloadView>)
    ensures
        sort_keys(presented(list)).to_multiset() == sort_keys(list).to_multiset(),
        presented(list).to_multiset() == list.to_multiset(),
{
    let first = by_address(list);
    order::lemma_places(addresses(list));
    order::lemma_places(extensions(first));
    order::law_arranging_keeps_items(list, addresses(list));
    order::law_arranging_keeps_items(first, extensions(first));
    order::law_arranging_keeps_items(sort_keys(list), addresses(list));
    order::law_arranging_keeps_items(sort_keys(first), extensions(first));
    assert(sort_keys(first) =~= order::arranged(sort_keys(list), addresses(list))) by {
        assert forall|i: int| 0 <= i < list.len() implies sort_keys(first)[i] == order::arranged(
            sort_keys(list),
            addresses(list),
        )[i] by {
            assert(0 <= order::places(addresses(list))[i] < list.len());
        }
    }
    assert(sort_keys(presented(list)) =~= order::arranged(sort_keys(first), extensions(first))) by {
        assert forall|i: int| 0 <= i < list.len() implies sort_keys(presented(list))[i]
            == order::arranged(sort_keys(first), extensions(first))[i] by {
            assert(0 <= order::places(extensions(first))[i] < first.len());
        }
    }
}

proof fn lemma_offered_is_named(pairs: Seq<(Seq<char>, Seq<char>)>)
    ensures
        forall|i: int|
            0 <= i < offered(pairs).len() ==> !((#[trigger] offered(pairs)[i]).format is Other)
                && offered(pairs)[i].size is None,
    decreases pairs.len(),
{
    if pairs.len() > 0 {
        lemma_offered_is_named(pairs.drop_last());
    }
}

proof fn lemma_presented_is_named(pairs: Seq<(Seq<char>, Seq<char>)>, i: int)
    requires
        0 <= i < presented(offered(pairs)).len(),
    ensures
        !(presented(offered(pairs))[i].format is Other),
        presented(offered(pairs))[i].size is None,
{
    let list = offered(pairs);
    let first = by_address(list);
    lemma_offered_is_named(pairs);
    order::lemma_places(addresses(list));
    order::lemma_places(extensions(first));
    let place = order::places(extensions(first))[i];
    assert(0 <= place < first.len());
    assert(0 <= order::places(addresses(list))[place] < list.len());
}

/// The extension of a named format tells which one it is.
proof fn lemma_extension_tells_format(a: FormatView, b: FormatView)
    requires
        !(a is Other),
        !(b is Other),
        a.extension() == b.extension(),
    ensures
        a == b,
{
    reveal_strlit("epub");
    reveal_strlit("pdf");
    reveal_strlit("txt");
    reveal_strlit("html");
    reveal_strlit("mobi");
    reveal_strlit("azw3");
    reveal_strlit("djvu");
    reveal_strlit("fb2");
    reveal_strlit("torrent");
    assert("epub"@[0] == 'e' && "pdf"@[0] == 'p' && "txt"@[0] == 't' && "html"@[0] == 'h');
    assert("mobi"@[0] == 'm' && "azw3"@[0] == 'a' && "djvu"@[0] == 'd' && "fb2"@[0] == 'f');
    assert("torrent"@.len() == 7 && "txt"@.len() == 3);
    assert("torrent"@[0] == 't');
}

/// The key of the file that a pair offers.
spec fn pair_key(pair: (Seq<char>, Seq<char>)) -> (Seq<char>, Seq<char>) {
    (format_of(pair.0).extension(), pair.1)
}

proof fn lemma_offered_without(pairs: Seq<(Seq<char>, Seq<char>)>, j: int)
    requires
        0 <= j < pairs.len(),
    ensures
        sort_keys(offered(pairs)).to_multiset() == (if is_offered(pairs[j]) {
            sort_keys(offered(pairs.remove(j))).to_multiset().insert(pair_key(pairs[j]))
        } else {
            sort_keys(offered(pairs.remove(j))).to_multiset()
        }),
    decreases pairs.len(),
{
    broadcast use vstd::multiset::group_multiset_axioms;

    let last = pairs.last();
    let front = pairs.drop_last();
    lemma_offered_step(pairs);
    if j == pairs.len() - 1 {
        assert(pairs.remove(j) =~= front);
    } else {
        lemma_offered_without(front, j);
        let fewer = pairs.remove(j);
        assert(fewer.drop_last() =~= front.remove(j));
        assert(fewer.last() == last);
        lemma_offered_step(fewer);
        assert(sort_keys(offered(pairs)).to_multiset() =~= (if is_offered(pairs[j]) {
            sort_keys(offered(fewer)).to_multiset().insert(pair_key(pairs[j]))
        } else {
            sort_keys(offered(fewer)).to_multiset()
        }));
    }
}

proof fn lemma_offered_step(pairs: Seq<(Seq<char>, Seq<char>)>)
    requires
        pairs.len() > 0,
    ensures
        sort_keys(offered(pairs)).to_multiset() == (if is_offered(pairs.last()) {
            sort_keys(offered(pairs.drop_last())).to_multiset().insert(pair_key(pairs.last()))
        } else {
            sort_keys(offered(pairs.drop_last())).to_multiset()
        }),
{
    let before = offered(pairs.drop_last());
    if is_offered(pairs.last()) {
        let key = pair_key(pairs.last());
        assert(sort_keys(offered(pairs)) =~= sort_keys(before).push(key));
        vstd::seq_lib::to_multiset_build(sort_keys(before), key);
    }
}

proof fn lemma_offered_in_any_order(
    pairs: Seq<(Seq<char>, Seq<char>)>,
    others: Seq<(Seq<char>, Seq<char>)>,
)
    requires
        pairs.to_multiset() == others.to_multiset(),
    ensures
        sort_keys(offered(pairs)).to_multiset() == sort_keys(offered(others)).to_multiset(),
    decreases pairs.len(),
{
    broadcast use vstd::seq_lib::group_to_multiset_ensures;
    broadcast use vstd::multiset::group_multiset_axioms;

    assert(pairs.len() == pairs.to_multiset().len());
    assert(others.len() == others.to_multiset().len());
    if pairs.len() == 0 {
        assert(pairs =~= others);
    } else {
        let at = pairs.len() - 1;
        let last = pairs[at];
        assert(pairs.contains(last));
        assert(others.to_multiset().count(last) > 0);
        assert(others.contains(last));
        let j = choose|j: int| 0 <= j < others.len() && others[j] == last;
        vstd::seq_lib::to_multiset_remove(pairs, at);
        vstd::seq_lib::to_multiset_remove(others, j);
        lemma_offered_in_any_order(pairs.remove(at), others.remove(j));
        lemma_offered_without(pairs, at);
        lemma_offered_without(others, j);
    }
}

/// The same book always presents its formats the same way, in whatever order
/// the reply lists them: the same files in the same order.
pub proof fn law_formats_keep_their_order(item: ItemView, other: ItemView)
    requires
        item.formats.to_multiset() == other.formats.to_multiset(),
    ensures
        item_book(item).downloads == item_book(other).downloads,
{
    let leq = |a: (Seq<char>, Seq<char>), b: (Seq<char>, Seq<char>)| key_at_most(a, b);
    let ours = item_book(item).downloads;
    let theirs = item_book(other).downloads;
    lemma_offered_in_any_order(item.formats, other.formats);
    lemma_presented_keys(offered(item.formats));
    lemma_presented_keys(offered(other.formats));
    lemma_key_order();
    assert forall|i: int, j: int| 0 <= i < j < sort_keys(ours).len() implies leq(
        #[trigger] sort_keys(ours)[i],
        #[trigger] sort_keys(ours)[j],
    ) by {
        law_formats_are_sorted(item, i, j);
    }
    assert forall|i: int, j: int| 0 <= i < j < sort_keys(theirs).len() implies leq(
        #[trigger] sort_keys(theirs)[i],
        #[trigger] sort_keys(theirs)[j],
    ) by {
        law_formats_are_sorted(other, i, j);
    }
    vstd::seq_lib::lemma_sorted_unique(sort_keys(ours), sort_keys(theirs), leq);
    assert(ours.len() == sort_keys(ours).len());
    assert(theirs.len() == sort_keys(theirs).len());
    assert forall|i: int| 0 <= i < ours.len() implies ours[i] == theirs[i] by {
        assert(sort_keys(ours)[i] == sort_keys(theirs)[i]);
        lemma_presented_is_named(item.formats, i);
        lemma_presented_is_named(other.formats, i);
        lemma_extension_tells_format(ours[i].format, theirs[i].format);
    }
    assert(ours =~= theirs);
}

/// A book presents each file that the reply offers, and no other.
pub proof fn law_all_formats_are_presented(item: ItemView)
    ensures
        item_book(item).downloads.to_multiset() == offered(item.formats).to_multiset(),
{
    lemma_presented_keys(offered(item.formats));
}

/// A search asks for the query and the page.
pub proof fn law_search_request(query: &str, page: usize, r: Request)
    requires
        call_ensures(search_request, (query, page), r),
    ensures
        r.url@ == "https://gutendex.com/books"@,
        r.params@.len() == 2,
        r@.params[0] == ("search"@, query@),
        r@.params[1] == ("page"@, number::decimal(if page == 0 {
                1
            } else {
                page as nat
            })),
{
    assert(r@.params.len() == r.params@.len());
}

/// A file is offered if it is in a format that has a name and is no archive; it
/// keeps its address, and its size is still unknown.
pub proof fn law_files_on_offer(
    pairs: Seq<(Seq<char>, Seq<char>)>,
    mime: Seq<char>,
    url: Seq<char>,
)
    ensures
        offered(seq![]).len() == 0,
        ({
            let format = FormatView::of_media_type(
                text::trimmed(words::pieces(mime, seq![';']).first()),
            );
            let archive = text::has_suffix(url, seq!['.', 'z', 'i', 'p']);
            let before = offered(pairs);
            let after = offered(pairs.push((mime, url)));
            &&& !archive && !(format is Other) ==> after == before.push(
                DownloadView { format, url, size: None },
            )
            &&& archive || format is Other ==> after == before
        }),
{
    reveal_strlit(".zip");
    assert(".zip"@ =~= seq!['.', 'z', 'i', 'p']);
    assert(pairs.push((mime, url)).drop_last() =~= pairs);
    assert(pairs.push((mime, url)).last() == (mime, url));
}

proof fn lemma_language_codes()
    ensures
        "en"@ == seq!['e', 'n'],
        "en"@[0] == 'e' && "en"@[1] == 'n',
        "fr"@ == seq!['f', 'r'],
        "fr"@[0] == 'f' && "fr"@[1] == 'r',
        "de"@ == seq!['d', 'e'],
        "de"@[0] == 'd' && "de"@[1] == 'e',
        "es"@ == seq!['e', 's'],
        "es"@[0] == 'e' && "es"@[1] == 's',
        "it"@ == seq!['i', 't'],
        "it"@[0] == 'i' && "it"@[1] == 't',
        "pt"@ == seq!['p', 't'],
        "pt"@[0] == 'p' && "pt"@[1] == 't',
        "nl"@ == seq!['n', 'l'],
        "nl"@[0] == 'n' && "nl"@[1] == 'l',
        "ru"@ == seq!['r', 'u'],
        "ru"@[0] == 'r' && "ru"@[1] == 'u',
        "pl"@ == seq!['p', 'l'],
        "pl"@[0] == 'p' && "pl"@[1] == 'l',
        "cs"@ == seq!['c', 's'],
        "cs"@[0] == 'c' && "cs"@[1] == 's',
        "sr"@ == seq!['s', 'r'],
        "sr"@[0] == 's' && "sr"@[1] == 'r',
        "hr"@ == seq!['h', 'r'],
        "hr"@[0] == 'h' && "hr"@[1] == 'r',
        "bs"@ == seq!['b', 's'],
        "bs"@[0] == 'b' && "bs"@[1] == 's',
        "zh"@ == seq!['z', 'h'],
        "zh"@[0] == 'z' && "zh"@[1] == 'h',
        "ja"@ == seq!['j', 'a'],
        "ja"@[0] == 'j' && "ja"@[1] == 'a',
        "la"@ == seq!['l', 'a'],
        "la"@[0] == 'l' && "la"@[1] == 'a',
        "el"@ == seq!['e', 'l'],
        "el"@[0] == 'e' && "el"@[1] == 'l',
        "fi"@ == seq!['f', 'i'],
        "fi"@[0] == 'f' && "fi"@[1] == 'i',
        "sv"@ == seq!['s', 'v'],
        "sv"@[0] == 's' && "sv"@[1] == 'v',
        "da"@ == seq!['d', 'a'],
        "da"@[0] == 'd' && "da"@[1] == 'a',
        "no"@ == seq!['n', 'o'],
        "no"@[0] == 'n' && "no"@[1] == 'o',
        "hu"@ == seq!['h', 'u'],
        "hu"@[0] == 'h' && "hu"@[1] == 'u',
        "ar"@ == seq!['a', 'r'],
        "ar"@[0] == 'a' && "ar"@[1] == 'r',
        "he"@ == seq!['h', 'e'],
        "he"@[0] == 'h' && "he"@[1] == 'e',
{
    reveal_strlit("en");
    reveal_strlit("fr");
    reveal_strlit("de");
    reveal_strlit("es");
    reveal_strlit("it");
    reveal_strlit("pt");
    reveal_strlit("nl");
    reveal_strlit("ru");
    reveal_strlit("pl");
    reveal_strlit("cs");
    reveal_strlit("sr");
    reveal_strlit("hr");
    reveal_strlit("bs");
    reveal_strlit("zh");
    reveal_strlit("ja");
    reveal_strlit("la");
    reveal_strlit("el");
    reveal_strlit("fi");
    reveal_strlit("sv");
    reveal_strlit("da");
    reveal_strlit("no");
    reveal_strlit("hu");
    reveal_strlit("ar");
    reveal_strlit("he");
    assert("en"@ =~= seq!['e', 'n']);
    assert("fr"@ =~= seq!['f', 'r']);
    assert("de"@ =~= seq!['d', 'e']);
    assert("es"@ =~= seq!['e', 's']);
    assert("it"@ =~= seq!['i', 't']);
    assert("pt"@ =~= seq!['p', 't']);
    assert("nl"@ =~= seq!['n', 'l']);
    assert("ru"@ =~= seq!['r', 'u']);
    assert("pl"@ =~= seq!['p', 'l']);
    assert("cs"@ =~= seq!['c', 's']);
    assert("sr"@ =~= seq!['s', 'r']);
    assert("hr"@ =~= seq!['h', 'r']);
    assert("bs"@ =~= seq!['b', 's']);
    assert("zh"@ =~= seq!['z', 'h']);
    assert("ja"@ =~= seq!['j', 'a']);
    assert("la"@ =~= seq!['l', 'a']);
    assert("el"@ =~= seq!['e', 'l']);
    assert("fi"@ =~= seq!['f', 'i']);
    assert("sv"@ =~= seq!['s', 'v']);
    assert("da"@ =~= seq!['d', 'a']);
    assert("no"@ =~= seq!['n', 'o']);
    assert("hu"@ =~= seq!['h', 'u']);
    assert("ar"@ =~= seq!['a', 'r']);
    assert("he"@ =~= seq!['h', 'e']);
}

/// The languages are called by their English names; a code that is not known is
/// shown as it is.
pub proof fn law_language_names(code: &str, r: &str)
    requires
        call_ensures(language_name, (code,), r),
    ensures
        code@ == seq!['e', 'n'] ==> r@ == "English"@,
        code@ == seq!['f', 'r'] ==> r@ == "French"@,
        code@ == seq!['d', 'e'] ==> r@ == "German"@,
        code@ == seq!['e', 's'] ==> r@ == "Spanish"@,
        code@ == seq!['i', 't'] ==> r@ == "Italian"@,
        code@ == seq!['p', 't'] ==> r@ == "Portuguese"@,
        code@ == seq!['n', 'l'] ==> r@ == "Dutch"@,
        code@ == seq!['r', 'u'] ==> r@ == "Russian"@,
        code@ == seq!['p', 'l'] ==> r@ == "Polish"@,
        code@ == seq!['c', 's'] ==> r@ == "Czech"@,
        code@ == seq!['s', 'r'] ==> r@ == "Serbian"@,
        code@ == seq!['h', 'r'] ==> r@ == "Croatian"@,
        code@ == seq!['b', 's'] ==> r@ == "Bosnian"@,
        code@ == seq!['z', 'h'] ==> r@ == "Chinese"@,
        code@ == seq!['j', 'a'] ==> r@ == "Japanese"@,
        code@ == seq!['l', 'a'] ==> r@ == "Latin"@,
        code@ == seq!['e', 'l'] ==> r@ == "Greek"@,
        code@ == seq!['f', 'i'] ==> r@ == "Finnish"@,
        code@ == seq!['s', 'v'] ==> r@ == "Swedish"@,
        code@ == seq!['d', 'a'] ==> r@ == "Danish"@,
        code@ == seq!['n', 'o'] ==> r@ == "Norwegian"@,
        code@ == seq!['h', 'u'] ==> r@ == "Hungarian"@,
        code@ == seq!['a', 'r'] ==> r@ == "Arabic"@,
        code@ == seq!['h', 'e'] ==> r@ == "Hebrew"@,
        code@.len() != 2 ==> r@ == code@,
        code@ != "en"@ && code@ != "fr"@ && code@ != "de"@ && code@ != "es"@ && code@ != "it"@ && code@ != "pt"@ && code@ != "nl"@ && code@ != "ru"@ && code@ != "pl"@ && code@ != "cs"@ && code@ != "sr"@ && code@ != "hr"@ && code@ != "bs"@ && code@ != "zh"@ && code@ != "ja"@ && code@ != "la"@ && code@ != "el"@ && code@ != "fi"@ && code@ != "sv"@ && code@ != "da"@ && code@ != "no"@ && code@ != "hu"@ && code@ != "ar"@ && code@ != "he"@ ==> r@ == code@,
{
    lemma_language_codes();
}

/// The languages of a book stand on one line in their order, with a comma and a
/// blank between them.
pub proof fn law_language_line(codes: &Vec<String>, r: Option<String>)
    requires
        call_ensures(languages, (codes,), r),
    ensures
        codes@.len() == 0 ==> r is None,
        codes@.len() == 1 ==> r is Some && r->0@ == name_of_language(codes@[0]@),
        codes@.len() == 2 ==> r is Some && r->0@ == name_of_language(codes@[0]@) + ", "@
            + name_of_language(codes@[1]@),
        codes@.len() > 0 ==> r is Some,
{
    let all = text::texts(codes@);
    let names = Seq::new(all.len(), |i: int| name_of_language(all[i]));
    reveal_with_fuel(words::joined, 3);
    if codes@.len() >= 1 {
        assert(all[0] == codes@[0]@);
        assert(names[0] == name_of_language(codes@[0]@));
    }
    if codes@.len() == 2 {
        assert(all[1] == codes@[1]@);
        assert(names[1] == name_of_language(codes@[1]@));
        assert(names.drop_last()[0] == names[0]);
    }
}

/// A book of the reply keeps its number, its title and its authors.
pub proof fn law_book_of_an_item(item: Item, r: Book)
    requires
        call_ensures(Item::into_book, (item,), r),
    ensures
        r.source@ == "gutenberg"@,
        r.id@ == number::decimal(item.id as nat),
        r.title@ == item.title@,
        r.authors@.len() == item.authors@.len(),
        forall|i: int|
            0 <= i < item.authors@.len() ==> (#[trigger] r.authors@[i])@ == item.authors@[i].name@,
        text::text_in(r.language) == language_line(text::texts(item.languages@)),
{
    assert(text::texts(r.authors@).len() == r.authors@.len());
    assert forall|i: int| 0 <= i < item.authors@.len() implies (#[trigger] r.authors@[i])@
        == item.authors@[i].name@ by {
        assert(text::texts(r.authors@)[i] == r.authors@[i]@);
        assert(item@.authors[i] == item.authors@[i].name@);
    }
}

/// A page holds 32 books: so many pages are needed, and no more, but always one.
pub proof fn law_total_pages(count: usize, r: usize)
    requires
        call_ensures(total_pages, (count,), r),
    ensures
        r >= 1,
        r * 32 >= count,
        r > 1 ==> (r - 1) * 32 < count,
{
}

/// A page of results holds the first books of the reply, in their order, as many
/// as there is room for; and all pages count.
pub proof fn law_results(response: SearchResponse, limit: usize, r: SearchResults, pages: usize)
    requires
        call_ensures(results, (response, limit), r),
        call_ensures(total_pages, (response.count,), pages),
    ensures
        response.results@.len() <= limit ==> r.books@.len() == response.results@.len(),
        response.results@.len() > limit ==> r.books@.len() == limit,
        forall|i: int|
            0 <= i < r.books@.len() ==> (#[trigger] r.books@[i])@ == item_book(
                response.results@[i]@,
            ),
        r.total_pages == Some(pages),
{
    let expected = Seq::new(
        taken(response.results@.len(), limit as nat),
        |i: int| item_book(response.results@[i]@),
    );
    assert(crate::source::books_view(r.books@).len() == r.books@.len());
    assert forall|i: int| 0 <= i < r.books@.len() implies (#[trigger] r.books@[i])@ == item_book(
        response.results@[i]@,
    ) by {
        assert(crate::source::books_view(r.books@)[i] == r.books@[i]@);
        assert(expected[i] == item_book(response.results@[i]@));
    }
}

/// The sizes of all files are asked for.
pub proof fn law_sized_files()
    ensures
        SIZED_FILES == usize::MAX,
{
}

} // verus!
