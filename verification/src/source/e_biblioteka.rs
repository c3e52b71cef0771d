//! Serbian/Croatian/Bosnian ebooks from e-biblioteka.org's WordPress API.

use vstd::prelude::*;

use crate::html;
use crate::number;
use crate::source::libgen;
use crate::source::{Book, BookView, Download, DownloadView, Format, FormatView};
use crate::source::{Request, RequestView, SearchResults, Source};
use crate::text;
use crate::words;

verus! {

broadcast use {
    crate::text::lemma_texts_push,
    crate::source::lemma_downloads_push,
    crate::source::lemma_books_push,
};

/// The address of the catalog's posts.
pub const API_URL: &'static str = "https://e-biblioteka.org/wp-json/wp/v2/posts";

/// The language of all its books.
pub const LANGUAGE: &'static str = "Serbian/Croatian/Bosnian";

/// The e-biblioteka.org catalog.
#[derive(Debug)]
pub struct EBiblioteka;

impl Default for EBiblioteka {
    fn default() -> (r: EBiblioteka)
        ensures
            r == EBiblioteka,
    {
        EBiblioteka
    }
}

impl Source for EBiblioteka {
    open spec fn tag(&self) -> Seq<char> {
        "e-biblioteka"@
    }

    fn name(&self) -> (r: &'static str) {
        "e-biblioteka"
    }
}

/// How many posts are asked for at once: the catalog takes 1 to 100.
pub open spec fn posts_per_page(limit: usize) -> nat {
    if limit < 1 {
        1
    } else if limit > 100 {
        100
    } else {
        limit as nat
    }
}

/// The search for `query`, as the catalog understands it.
pub fn search_request(query: &str, page: usize, limit: usize) -> (r: Request)
    ensures
        r@ == (RequestView {
            url: API_URL@,
            params: seq![
                ("search"@, query@),
                ("page"@, number::decimal(crate::source::page_number(page))),
                ("per_page"@, number::decimal(posts_per_page(limit))),
            ],
        }),
{
    let per_page: u64 = if limit < 1 {
        1
    } else if limit > 100 {
        100
    } else {
        limit as u64
    };
    let mut params: Vec<(&'static str, String)> = Vec::new();
    params.push(("search", query.to_owned()));
    params.push(("page", crate::source::page_text(page)));
    params.push(("per_page", number::to_decimal(per_page)));
    let r = Request { url: API_URL, params };
    assert(r@.params =~= seq![
        ("search"@, query@),
        ("page"@, number::decimal(crate::source::page_number(page))),
        ("per_page"@, number::decimal(posts_per_page(limit))),
    ]);
    r
}

/// For how many files of a book the size is asked for.
pub const SIZED_FILES: usize = 1;

// ---- posts ----------------------------------------------------------------------

/// A text in HTML.
#[derive(Debug)]
pub struct Rendered {
    pub rendered: String,
}

/// One post of the catalog: the title names the author, the content links to
/// files.
#[derive(Debug)]
pub struct Post {
    pub id: u64,
    pub title: Rendered,
    pub content: Rendered,
}

/// The mathematical counterpart of [`Post`].
pub struct PostView {
    pub id: u64,
    pub title: Seq<char>,
    pub content: Seq<char>,
}

impl View for Post {
    type V = PostView;

    open spec fn view(&self) -> PostView {
        PostView { id: self.id, title: self.title.rendered@, content: self.content.rendered@ }
    }
}

impl PostView {
    /// The post is short enough to be parsed.
    pub open spec fn is_readable(self) -> bool {
        html::is_page(self.title) && html::is_page(self.content)
    }
}

impl Post {
    /// Whether the post is short enough to be parsed.
    pub fn fits(&self) -> (r: bool)
        ensures
            r == self@.is_readable(),
    {
        html::fits(self.title.rendered.as_str()) && html::fits(self.content.rendered.as_str())
    }
}

/// What a list of posts holds.
pub open spec fn posts_view(list: Seq<Post>) -> Seq<PostView> {
    Seq::new(list.len(), |i: int| list[i]@)
}

/// The ebook format of the file that an address leads to.
pub open spec fn format_of_url(url: Seq<char>) -> Option<FormatView> {
    let file = words::pieces(url, seq!['?', '#']).first();
    FormatView::of_extension(text::lowered(words::pieces(file, seq!['.']).last()))
}

/// The ebook format of the file that an address leads to, if it is one.
pub fn format_from_url(url: &str) -> (r: Option<Format>)
    ensures
        crate::source::format_in(r) == format_of_url(url@),
{
    let ends: [char; 2] = ['?', '#'];
    let dots: [char; 1] = ['.'];
    assert(ends@ =~= seq!['?', '#']);
    assert(dots@ =~= seq!['.']);
    let file = words::first_piece(url, &ends);
    let extension = words::last_piece(file.as_str(), &dots);
    let lower = text::lower(extension.as_str());
    Format::from_extension(lower.as_str())
}

/// The address of the catalog's own files over a secure connection; any other
/// address as it is.
pub open spec fn upgraded(url: Seq<char>) -> Seq<char> {
    match text::after_prefix(url, "http://e-biblioteka.org/"@) {
        Some(path) => "https://e-biblioteka.org/"@ + path,
        None => url,
    }
}

/// The address of the catalog's own files over a secure connection.
pub fn upgrade_url(url: &str) -> (r: String)
    ensures
        r@ == upgraded(url@),
{
    match text::strip_prefix(url, "http://e-biblioteka.org/") {
        Some(path) => {
            let mut out = "https://e-biblioteka.org/".to_owned();
            out.append(path.as_str());
            out
        },
        None => url.to_owned(),
    }
}

/// An upgraded address needs no further upgrade.
pub proof fn law_upgrade_is_final(url: Seq<char>)
    ensures
        upgraded(upgraded(url)) == upgraded(url),
{
    reveal_strlit("http://e-biblioteka.org/");
    reveal_strlit("https://e-biblioteka.org/");
    let old_head = "http://e-biblioteka.org/"@;
    if text::has_prefix(upgraded(url), old_head) && text::has_prefix(url, old_head) {
        assert(upgraded(url)[4] == 's');
        assert(upgraded(url).subrange(0, old_head.len() as int)[4] == old_head[4]);
    }
}

/// The name of the file that an address leads to, without its extension.
pub open spec fn file_stem(url: Seq<char>) -> Seq<char> {
    let file = words::pieces(
        words::pieces(url, seq!['?', '#']).first(),
        seq!['/'],
    ).last();
    match words::before_last(file, '.') {
        Some(stem) => stem,
        None => "book"@,
    }
}

/// The name of the file that an address leads to, without its extension.
pub fn id_from_url(url: &str) -> (r: String)
    ensures
        r@ == file_stem(url@),
{
    let ends: [char; 2] = ['?', '#'];
    let slashes: [char; 1] = ['/'];
    assert(ends@ =~= seq!['?', '#']);
    assert(slashes@ =~= seq!['/']);
    let path = words::first_piece(url, &ends);
    let file = words::last_piece(path.as_str(), &slashes);
    match words::stem(file.as_str(), '.') {
        Some(stem) => stem,
        None => "book".to_owned(),
    }
}

/// A title made of the name of the file that an address leads to.
pub open spec fn title_of_url(url: Seq<char>) -> Option<Seq<char>> {
    let title = text::replaced(file_stem(url), seq!['-', '_'], ' ');
    if title.len() == 0 {
        None
    } else {
        Some(title)
    }
}

/// A title made of the name of the file that an address leads to.
pub fn title_from_url(url: &str) -> (r: Option<String>)
    ensures
        text::text_in(r) == title_of_url(url@),
{
    let dashes: [char; 2] = ['-', '_'];
    assert(dashes@ =~= seq!['-', '_']);
    let stem = id_from_url(url);
    let title = text::replace(stem.as_str(), &dashes, ' ');
    if title.as_str().is_empty() {
        None
    } else {
        Some(title)
    }
}

/// The book that a file block describes, by its first link.
pub open spec fn block_book(
    post: u64,
    author: Option<Seq<char>>,
    block: Seq<html::FileLinkView>,
) -> Option<BookView> {
    if block.len() == 0 || block[0].href is None || format_of_url(block[0].href->0) is None {
        None
    } else {
        let href = block[0].href->0;
        let url = upgraded(href);
        let title = match words::squeezed_text(block[0].text) {
            Some(title) => Some(title),
            None => title_of_url(url),
        };
        if title is None {
            None
        } else {
            Some(
                BookView {
                    source: "e-biblioteka"@,
                    id: number::decimal(post as nat) + "-"@ + file_stem(url),
                    title: title->0,
                    authors: libgen::at_most_one(author),
                    language: Some(LANGUAGE@),
                    downloads: seq![
                        DownloadView { format: format_of_url(href)->0, url, size: None },
                    ],
                },
            )
        }
    }
}

/// The book in an optional one.
pub open spec fn book_in(value: Option<Book>) -> Option<BookView> {
    match value {
        Some(book) => Some(book@),
        None => None,
    }
}

fn book_from_block(post: u64, author: &Option<String>, block: &Vec<html::FileLink>) -> (r: Option<
    Book,
>)
    ensures
        book_in(r) == block_book(post, text::text_in(*author), html::block_view(block@)),
{
    if block.len() == 0 {
        return None;
    }
    assert(html::block_view(block@)[0] == block@[0]@);
    let href = match &block[0].href {
        Some(href) => href,
        None => return None,
    };
    let format = match format_from_url(href.as_str()) {
        Some(format) => format,
        None => return None,
    };
    let url = upgrade_url(href.as_str());
    let title = match words::squeeze_some(block[0].text.as_str()) {
        Some(title) => title,
        None => match title_from_url(url.as_str()) {
            Some(title) => title,
            None => return None,
        },
    };
    let mut id = number::to_decimal(post);
    id.append("-");
    id.append(id_from_url(url.as_str()).as_str());
    let mut downloads: Vec<Download> = Vec::new();
    downloads.push(Download { format, url, size: None });
    let book = Book {
        source: "e-biblioteka",
        id,
        title,
        authors: libgen::list_of(text::copy_text(author)),
        language: Some(LANGUAGE.to_owned()),
        downloads,
    };
    assert(book@.downloads =~= block_book(
        post,
        text::text_in(*author),
        html::block_view(block@),
    )->0.downloads);
    Some(book)
}

/// The books that the first `n` file blocks of a post describe.
pub open spec fn block_books(
    post: u64,
    author: Option<Seq<char>>,
    blocks: Seq<Seq<html::FileLinkView>>,
    n: int,
) -> Seq<BookView>
    decreases n,
{
    if n <= 0 {
        Seq::empty()
    } else {
        let before = block_books(post, author, blocks, n - 1);
        match block_book(post, author, blocks[n - 1]) {
            Some(book) => before.push(book),
            None => before,
        }
    }
}

/// The books that the file blocks of a post describe.
pub fn books_from_blocks(
    post: u64,
    author: &Option<String>,
    blocks: &Vec<Vec<html::FileLink>>,
) -> (r: Vec<Book>)
    ensures
        crate::source::books_view(r@) == block_books(
            post,
            text::text_in(*author),
            html::blocks_view(blocks@),
            blocks@.len() as int,
        ),
{
    let ghost all = html::blocks_view(blocks@);
    let ghost name = text::text_in(*author);
    let mut out: Vec<Book> = Vec::new();
    let mut i: usize = 0;
    assert(crate::source::books_view(out@) =~= block_books(post, name, all, 0));
    while i < blocks.len()
        invariant
            i <= blocks@.len(),
            all == html::blocks_view(blocks@),
            name == text::text_in(*author),
            crate::source::books_view(out@) == block_books(post, name, all, i as int),
        decreases blocks@.len() - i,
    {
        assert(all[i as int] == html::block_view(blocks@[i as int]@));
        if let Some(book) = book_from_block(post, author, &blocks[i]) {
            out.push(book);
        }
        i += 1;
    }
    out
}

/// The books that a post describes.
pub open spec fn post_books(post: PostView) -> Seq<BookView> {
    let blocks = html::fragment_files(post.content, ".wp-block-file"@, "a[href]"@);
    block_books(
        post.id,
        words::squeezed_text(html::fragment_text(post.title)),
        blocks,
        blocks.len() as int,
    )
}

/// The text of an HTML fragment on one line, unless it is empty.
pub fn text_from_html(value: &str) -> (r: Option<String>)
    requires
        html::is_page(value@),
    ensures
        text::text_in(r) == words::squeezed_text(html::fragment_text(value@)),
{
    let whole = html::plain_text(value);
    words::squeeze_some(whole.as_str())
}

/// The books that a post describes.
pub fn books_from_post(post: &Post) -> (r: Vec<Book>)
    requires
        post@.is_readable(),
    ensures
        crate::source::books_view(r@) == post_books(post@),
{
    let author = text_from_html(post.title.rendered.as_str());
    proof {
        reveal_strlit(".wp-block-file");
        reveal_strlit("a[href]");
    }
    let blocks = html::file_blocks(post.content.rendered.as_str(), ".wp-block-file", "a[href]");
    books_from_blocks(post.id, &author, &blocks)
}

/// The address of a book's first file.
pub open spec fn first_url(book: BookView) -> Seq<char> {
    book.downloads[0].url
}

/// One of the books has its first file at `url`.
pub open spec fn has_url(books: Seq<BookView>, url: Seq<char>) -> bool {
    exists|i: int| 0 <= i < books.len() && first_url(#[trigger] books[i]) == url
}

/// `books` followed by those of `more` that lead to new files, `limit` at most.
pub open spec fn extended(books: Seq<BookView>, more: Seq<BookView>, limit: nat) -> Seq<BookView>
    decreases more.len(),
{
    if more.len() == 0 {
        books
    } else {
        let before = extended(books, more.drop_last(), limit);
        if before.len() < limit && !has_url(before, first_url(more.last())) {
            before.push(more.last())
        } else {
            before
        }
    }
}

/// Every book has a file.
pub open spec fn have_files(books: Seq<BookView>) -> bool {
    forall|i: int| 0 <= i < books.len() ==> (#[trigger] books[i]).downloads.len() > 0
}

/// The books that the first `n` posts describe: one for each file, the first
/// that leads to it, and `limit` at most.
pub open spec fn posted(posts: Seq<PostView>, n: int, limit: nat) -> Seq<BookView>
    decreases n,
{
    if n <= 0 {
        Seq::empty()
    } else {
        extended(posted(posts, n - 1, limit), post_books(posts[n - 1]), limit)
    }
}

proof fn lemma_block_books_have_files(
    post: u64,
    author: Option<Seq<char>>,
    blocks: Seq<Seq<html::FileLinkView>>,
    n: int,
)
    ensures
        have_files(block_books(post, author, blocks, n)),
    decreases n,
{
    if n > 0 {
        lemma_block_books_have_files(post, author, blocks, n - 1);
    }
}

fn leads_to(books: &Vec<Book>, url: &str) -> (r: bool)
    requires
        have_files(crate::source::books_view(books@)),
    ensures
        r == has_url(crate::source::books_view(books@), url@),
{
    let ghost all = crate::source::books_view(books@);
    let mut i: usize = 0;
    while i < books.len()
        invariant
            i <= books@.len(),
            all == crate::source::books_view(books@),
            have_files(all),
            forall|k: int| 0 <= k < i ==> first_url(#[trigger] all[k]) != url@,
        decreases books@.len() - i,
    {
        assert(all[i as int] == books@[i as int]@);
        assert(all[i as int].downloads.len() > 0);
        assert(all[i as int].downloads[0] == books@[i as int].downloads@[0]@);
        if text::same(books[i].downloads[0].url.as_str(), url) {
            assert(first_url(all[i as int]) == url@);
            return true;
        }
        i += 1;
    }
    false
}

/// Append those of `more` to `books` that lead to new files, until there are
/// `limit` books.
pub fn extend_distinct(books: &mut Vec<Book>, more: Vec<Book>, limit: usize)
    requires
        have_files(crate::source::books_view(old(books)@)),
        have_files(crate::source::books_view(more@)),
    ensures
        crate::source::books_view(final(books)@) == extended(
            crate::source::books_view(old(books)@),
            crate::source::books_view(more@),
            limit as nat,
        ),
        have_files(crate::source::books_view(final(books)@)),
{
    let ghost start = crate::source::books_view(books@);
    let ghost all = crate::source::books_view(more@);
    assert(all.take(0) =~= Seq::<BookView>::empty());
    for book in it: more
        invariant
            it.seq() == more@,
            all == crate::source::books_view(more@),
            have_files(all),
            have_files(crate::source::books_view(books@)),
            crate::source::books_view(books@) == extended(
                start,
                all.take(it.index() as int),
                limit as nat,
            ),
    {
        let ghost i = it.index() as int;
        assert(book == more@[i]);
        assert(all.take(i + 1).drop_last() =~= all.take(i));
        assert(all.take(i + 1).last() == book@);
        assert(all[i].downloads.len() > 0);
        assert(book@.downloads[0] == book.downloads@[0]@);
        if books.len() < limit && !leads_to(books, book.downloads[0].url.as_str()) {
            books.push(book);
        }
    }
    assert(all.take(more@.len() as int) =~= all);
}

/// The books that the posts describe.
pub fn parse_posts(posts: &Vec<Post>, limit: usize) -> (r: Vec<Book>)
    requires
        forall|i: int| 0 <= i < posts@.len() ==> (#[trigger] posts@[i])@.is_readable(),
    ensures
        crate::source::books_view(r@) == posted(
            posts_view(posts@),
            posts@.len() as int,
            limit as nat,
        ),
{
    let ghost all = posts_view(posts@);
    let mut out: Vec<Book> = Vec::new();
    let mut i: usize = 0;
    assert(crate::source::books_view(out@) =~= posted(all, 0, limit as nat));
    while i < posts.len()
        invariant
            i <= posts@.len(),
            forall|i: int| 0 <= i < posts@.len() ==> (#[trigger] posts@[i])@.is_readable(),
            all == posts_view(posts@),
            have_files(crate::source::books_view(out@)),
            crate::source::books_view(out@) == posted(all, i as int, limit as nat),
        decreases posts@.len() - i,
    {
        assert(all[i as int] == posts@[i as int]@);
        proof {
            let post = all[i as int];
            let blocks = html::fragment_files(post.content, ".wp-block-file"@, "a[href]"@);
            lemma_block_books_have_files(
                post.id,
                words::squeezed_text(html::fragment_text(post.title)),
                blocks,
                blocks.len() as int,
            );
        }
        let more = books_from_post(&posts[i]);
        extend_distinct(&mut out, more, limit);
        i += 1;
    }
    out
}

/// No two of the books lead to the same file.
pub open spec fn files_differ(books: Seq<BookView>) -> bool {
    forall|i: int, j: int|
        0 <= i < j < books.len() ==> first_url(#[trigger] books[i]) != first_url(
            #[trigger] books[j],
        )
}

proof fn lemma_extended(books: Seq<BookView>, more: Seq<BookView>, limit: nat)
    requires
        files_differ(books),
        books.len() <= limit,
    ensures
        files_differ(extended(books, more, limit)),
        extended(books, more, limit).len() <= limit,
    decreases more.len(),
{
    if more.len() > 0 {
        lemma_extended(books, more.drop_last(), limit);
    }
}

/// No file is listed twice, and there are never more books than the limit.
pub proof fn law_files_are_distinct(posts: Seq<PostView>, n: int, limit: nat)
    ensures
        files_differ(posted(posts, n, limit)),
        posted(posts, n, limit).len() <= limit,
    decreases n,
{
    if n > 0 {
        law_files_are_distinct(posts, n - 1, limit);
        lemma_extended(posted(posts, n - 1, limit), post_books(posts[n - 1]), limit);
    }
}

// ---- pages ------------------------------------------------------------------------

/// The number of pages that the response's header names, at least one.
pub open spec fn reported_pages(header: Option<Seq<char>>) -> Option<usize> {
    match header {
        Some(value) => match number::size_value(value) {
            Some(pages) => Some(
                if pages < 1 {
                    1
                } else {
                    pages
                },
            ),
            None => None,
        },
        None => None,
    }
}

/// The number of pages that the response's header `x-wp-totalpages` names.
pub fn total_pages(header: Option<String>) -> (r: Option<usize>)
    ensures
        r == reported_pages(text::text_in(header)),
{
    match header {
        Some(value) => match number::parse_size(value.as_str()) {
            Some(pages) => Some(
                if pages < 1 {
                    1
                } else {
                    pages
                },
            ),
            None => None,
        },
        None => None,
    }
}

/// The number of pages with books. An empty page after the first one shows that
/// the books end before it, whatever the catalog reports.
pub open spec fn usable_pages(
    reported: Option<usize>,
    requested_page: usize,
    books_empty: bool,
) -> Option<usize> {
    if books_empty && requested_page > 1 {
        match reported {
            Some(pages) if pages < requested_page => Some(
                if pages < 1 {
                    1
                } else {
                    pages
                },
            ),
            _ => Some((requested_page - 1) as usize),
        }
    } else {
        reported
    }
}

/// The number of pages with books.
pub fn effective_total_pages(
    reported: Option<usize>,
    requested_page: usize,
    books_empty: bool,
) -> (r: Option<usize>)
    ensures
        r == usable_pages(reported, requested_page, books_empty),
{
    if books_empty && requested_page > 1 {
        let mut pages: usize = match reported {
            Some(pages) => pages,
            None => requested_page - 1,
        };
        if pages > requested_page - 1 {
            pages = requested_page - 1;
        }
        if pages < 1 {
            pages = 1;
        }
        return Some(pages);
    }
    reported
}

/// An empty page is never counted among the pages with books, except the first.
pub proof fn law_empty_tail_is_dropped(reported: Option<usize>, requested_page: usize)
    requires
        requested_page > 1,
    ensures
        usable_pages(reported, requested_page, true) matches Some(pages) && 1 <= pages
            < requested_page,
{
}

/// One page of results, given the books with their sizes.
pub fn results(header: Option<String>, page: usize, books: Vec<Book>) -> (r: SearchResults)
    ensures
        r.books == books,
        r.total_pages == usable_pages(
            reported_pages(text::text_in(header)),
            crate::source::page_number(page) as usize,
            books@.len() == 0,
        ),
{
    let requested: usize = if page < 1 {
        1
    } else {
        page
    };
    let empty = books.len() == 0;
    let total_pages = effective_total_pages(total_pages(header), requested, empty);
    SearchResults { books, total_pages }
}

// ---- laws -------------------------------------------------------------------------

/// A search asks for the query, the page, and as many posts as there is room for,
/// between one and a hundred.
pub proof fn law_search_request(query: &str, page: usize, limit: usize, r: Request)
    requires
        call_ensures(search_request, (query, page, limit), r),
    ensures
        r.url@ == "https://e-biblioteka.org/wp-json/wp/v2/posts"@,
        r.params@.len() == 3,
        r@.params[0] == ("search"@, query@),
        r@.params[1] == ("page"@, number::decimal(if page == 0 {
                1
            } else {
                page as nat
            })),
        1 <= limit <= 100 ==> r@.params[2] == ("per_page"@, number::decimal(limit as nat)),
        limit == 0 ==> r@.params[2] == ("per_page"@, number::decimal(1)),
        limit > 100 ==> r@.params[2] == ("per_page"@, number::decimal(100)),
{
    assert(r@.params.len() == r.params@.len());
}

proof fn lemma_before_query(path: Seq<char>, tail: Seq<char>)
    requires
        !path.contains('?'),
        !path.contains('#'),
        tail.len() == 0 || tail[0] == '?' || tail[0] == '#',
    ensures
        words::pieces(path + tail, seq!['?', '#']).first() == path,
{
    let stops = seq!['?', '#'];
    assert(stops[0] == '?' && stops[1] == '#');
    assert forall|i: int| 0 <= i < path.len() implies !stops.contains(#[trigger] path[i]) by {
        assert(path.contains(path[i]));
    }
    words::law_first_piece(path, tail, stops);
}

proof fn lemma_behind_last(head: Seq<char>, stop: char, tail: Seq<char>)
    requires
        !tail.contains(stop),
    ensures
        words::pieces(head + seq![stop] + tail, seq![stop]).last() == tail,
        words::pieces(tail, seq![stop]).last() == tail,
{
    let stops = seq![stop];
    assert(stops[0] == stop);
    assert forall|i: int| 0 <= i < tail.len() implies !stops.contains(#[trigger] tail[i]) by {
        assert(tail.contains(tail[i]));
    }
    words::law_one_piece(tail, stops);
    words::law_stops_divide(head, stop, tail, stops);
}

/// The format of a file is told by what its address ends in, in any letter case,
/// without a query or a fragment.
pub proof fn law_format_of_an_address(
    url: &str,
    r: Option<Format>,
    head: Seq<char>,
    ext: Seq<char>,
    tail: Seq<char>,
)
    requires
        call_ensures(format_from_url, (url,), r),
        url@ == head + seq!['.'] + ext + tail,
        !(head + seq!['.'] + ext).contains('?'),
        !(head + seq!['.'] + ext).contains('#'),
        !ext.contains('.'),
        tail.len() == 0 || tail[0] == '?' || tail[0] == '#',
    ensures
        crate::source::format_in(r) == FormatView::of_extension(text::lowered(ext)),
{
    lemma_before_query(head + seq!['.'] + ext, tail);
    lemma_behind_last(head, '.', ext);
}

/// The catalog's own files are asked for over a secure connection, and no other
/// address is changed.
pub proof fn law_own_files_are_upgraded(url: &str, r: String, path: Seq<char>)
    requires
        call_ensures(upgrade_url, (url,), r),
    ensures
        url@ == "http://e-biblioteka.org/"@ + path ==> r@ == "https://e-biblioteka.org/"@ + path,
        !text::has_prefix(url@, "http://e-biblioteka.org/"@) ==> r@ == url@,
{
    reveal_strlit("http://e-biblioteka.org/");
    let head = "http://e-biblioteka.org/"@;
    if url@ == head + path {
        assert(url@.subrange(0, head.len() as int) =~= head);
        assert(url@.subrange(head.len() as int, url@.len() as int) =~= path);
    }
}

/// A file is known by its name, without the folders before it and the extension
/// behind it; one without an extension is just a book. Its title is that name
/// with blanks for dashes and underscores.
pub proof fn law_names_of_files(
    url: &str,
    r: String,
    title: Option<String>,
    head: Seq<char>,
    name: Seq<char>,
    ext: Seq<char>,
    tail: Seq<char>,
)
    requires
        call_ensures(id_from_url, (url,), r),
        call_ensures(title_from_url, (url,), title),
        !(head + seq!['/'] + (name + seq!['.'] + ext)).contains('?'),
        !(head + seq!['/'] + (name + seq!['.'] + ext)).contains('#'),
        !(name + seq!['.'] + ext).contains('/'),
        !ext.contains('.'),
        tail.len() == 0 || tail[0] == '?' || tail[0] == '#',
        url@ == head + seq!['/'] + (name + seq!['.'] + ext) + tail,
    ensures
        r@ == name,
        name.len() > 0 ==> title is Some && title->0@.len() == name.len(),
        name.len() == 0 ==> title is None,
        forall|i: int|
            0 <= i < name.len() ==> (if name[i] == '-' || name[i] == '_' {
                #[trigger] title->0@[i] == ' '
            } else {
                title->0@[i] == name[i]
            }),
{
    let file = name + seq!['.'] + ext;
    lemma_before_query(head + seq!['/'] + file, tail);
    lemma_behind_last(head, '/', file);
    lemma_stem(name, ext);
    let dashes = seq!['-', '_'];
    assert(dashes[0] == '-' && dashes[1] == '_');
    assert forall|i: int| 0 <= i < name.len() implies (if name[i] == '-' || name[i] == '_' {
        #[trigger] title->0@[i] == ' '
    } else {
        title->0@[i] == name[i]
    }) by {
        if dashes.contains(name[i]) {
            let k = choose|k: int| 0 <= k < dashes.len() && dashes[k] == name[i];
            assert(k == 0 || k == 1);
        }
    }
}

proof fn lemma_stem(stem: Seq<char>, ext: Seq<char>)
    requires
        !ext.contains('.'),
    ensures
        words::before_last(stem + seq!['.'] + ext, '.') == Some(stem),
    decreases ext.len(),
{
    let name = stem + seq!['.'] + ext;
    if ext.len() == 0 {
        assert(name.drop_last() =~= stem);
    } else {
        let front = ext.drop_last();
        assert(ext.contains(ext[ext.len() - 1]));
        if front.contains('.') {
            let i = choose|i: int| 0 <= i < front.len() && front[i] == '.';
            assert(ext[i] == '.');
        }
        lemma_stem(stem, front);
        assert(name.drop_last() =~= stem + seq!['.'] + front);
        assert(name.last() == ext[ext.len() - 1]);
    }
}

/// A file without an extension in its name is just a book.
pub proof fn law_nameless_files(url: &str, r: String, head: Seq<char>, name: Seq<char>)
    requires
        call_ensures(id_from_url, (url,), r),
        url@ == head + seq!['/'] + name,
        !url@.contains('?'),
        !url@.contains('#'),
        !name.contains('/'),
        !name.contains('.'),
    ensures
        r@ == "book"@,
{
    lemma_before_query(url@, Seq::empty());
    assert(url@ + Seq::<char>::empty() =~= url@);
    lemma_behind_last(head, '/', name);
    if words::before_last(name, '.') is Some {
        lemma_has_dot(name);
    }
}

proof fn lemma_has_dot(name: Seq<char>)
    requires
        words::before_last(name, '.') is Some,
    ensures
        name.contains('.'),
    decreases name.len(),
{
    if name.last() == '.' {
        assert(name[name.len() - 1] == '.');
    } else {
        lemma_has_dot(name.drop_last());
        let i = choose|i: int| 0 <= i < name.drop_last().len() && name.drop_last()[i] == '.';
        assert(name[i] == '.');
    }
}

/// What a file block tells of its book: the first link leads to the file and has
/// the title; the author is that of the post, and the number of the post is
/// part of the book's own.
pub proof fn law_book_of_a_block(
    post: u64,
    author: Option<Seq<char>>,
    block: Seq<html::FileLinkView>,
)
    ensures
        block.len() == 0 ==> block_book(post, author, block) is None,
        block.len() > 0 && block[0].href is None ==> block_book(post, author, block) is None,
        block_book(post, author, block) matches Some(book) ==> {
            let href = block[0].href->0;
            let url = upgraded(href);
            &&& book.source == "e-biblioteka"@
            &&& book.id == number::decimal(post as nat) + seq!['-'] + file_stem(url)
            &&& words::squeezed(block[0].text).len() > 0 ==> book.title == words::squeezed(
                block[0].text,
            )
            &&& words::squeezed(block[0].text).len() == 0 ==> title_of_url(url) == Some(book.title)
            &&& author is Some ==> book.authors == seq![author->0]
            &&& author is None ==> book.authors.len() == 0
            &&& book.language == Some("Serbian/Croatian/Bosnian"@)
            &&& book.downloads.len() == 1
            &&& book.downloads[0].url == url
            &&& format_of_url(href) == Some(book.downloads[0].format)
            &&& book.downloads[0].size is None
        },
        block.len() > 0 && block[0].href is Some && format_of_url(block[0].href->0) is Some
            && words::squeezed(block[0].text).len() > 0 ==> block_book(
            post,
            author,
            block,
        ) is Some,
{
    reveal_strlit("-");
    assert("-"@ =~= seq!['-']);
}

/// Every block with a file is listed, and the books stand in the order of the
/// blocks.
pub proof fn law_blocks_keep_their_order(
    post: u64,
    author: Option<Seq<char>>,
    blocks: Seq<Seq<html::FileLinkView>>,
    n: int,
    k: int,
)
    requires
        0 <= k < n <= blocks.len(),
        block_book(post, author, blocks[k]) is Some,
    ensures
        block_books(post, author, blocks, k).len() < block_books(post, author, blocks, n).len(),
        block_books(post, author, blocks, n)[block_books(post, author, blocks, k).len() as int]
            == block_book(post, author, blocks[k])->0,
        block_books(post, author, blocks, 0).len() == 0,
    decreases n,
{
    if k < n - 1 {
        law_blocks_keep_their_order(post, author, blocks, n - 1, k);
    }
}

/// The books of a post are those of its file blocks, and its title, as a text,
/// names their author.
pub proof fn law_books_of_a_post(post: &Post, r: Vec<Book>)
    requires
        call_ensures(books_from_post, (post,), r),
    ensures
        ({
            let blocks = html::fragment_files(
                post.content.rendered@,
                ".wp-block-file"@,
                "a[href]"@,
            );
            let author = words::squeezed_text(html::fragment_text(post.title.rendered@));
            crate::source::books_view(r@) == block_books(
                post.id,
                author,
                blocks,
                blocks.len() as int,
            )
        }),
{
}

/// Books are added behind those that are there, in their order, unless one of
/// those leads to the same file or there is no more room.
pub proof fn law_new_files_are_added(
    books: Seq<BookView>,
    more: Seq<BookView>,
    book: BookView,
    limit: nat,
)
    ensures
        extended(books, seq![], limit) == books,
        ({
            let before = extended(books, more, limit);
            let known = exists|i: int|
                0 <= i < before.len() && (#[trigger] before[i]).downloads[0].url
                    == book.downloads[0].url;
            let after = extended(books, more.push(book), limit);
            &&& !known && before.len() < limit ==> after == before.push(book)
            &&& known || before.len() >= limit ==> after == before
        }),
{
    let before = extended(books, more, limit);
    assert(more.push(book).drop_last() =~= more);
    assert(more.push(book).last() == book);
    if has_url(before, first_url(book)) {
        let i = choose|i: int|
            0 <= i < before.len() && first_url(#[trigger] before[i]) == first_url(book);
        assert(before[i].downloads[0].url == book.downloads[0].url);
    }
    if exists|i: int|
        0 <= i < before.len() && (#[trigger] before[i]).downloads[0].url
            == book.downloads[0].url {
        let i = choose|i: int|
            0 <= i < before.len() && (#[trigger] before[i]).downloads[0].url
                == book.downloads[0].url;
        assert(first_url(before[i]) == first_url(book));
    }
}

/// The posts are taken one after the other.
pub proof fn law_posts_follow_each_other(posts: Seq<PostView>, n: int, limit: nat)
    requires
        0 < n <= posts.len(),
    ensures
        posted(posts, 0, limit).len() == 0,
        posted(posts, n, limit) == extended(
            posted(posts, n - 1, limit),
            post_books(posts[n - 1]),
            limit,
        ),
{
}

/// The catalog reports the number of pages in digits; there is always one page,
/// and a header that is no number reports nothing.
pub proof fn law_reported_pages(header: Option<String>, r: Option<usize>, n: nat)
    requires
        call_ensures(total_pages, (header,), r),
        n <= usize::MAX,
    ensures
        header is None ==> r is None,
        header is Some && header->0@ == number::decimal(n) ==> r == Some(
            (if n == 0 {
                1
            } else {
                n
            }) as usize,
        ),
        header is Some && header->0@.len() == 0 ==> r is None,
{
    number::law_decimal_is_read_back(n);
}

/// A page with books leaves the reported number as it is; an empty page past the
/// first one shows that there are fewer pages than it, and fewer still where
/// the catalog says so.
pub proof fn law_pages_with_books(
    reported: Option<usize>,
    page: usize,
    books_empty: bool,
    r: Option<usize>,
)
    requires
        call_ensures(effective_total_pages, (reported, page, books_empty), r),
    ensures
        !books_empty || page <= 1 ==> r == reported,
        books_empty && page > 1 && reported is None ==> r == Some((page - 1) as usize),
        books_empty && page > 1 && reported is Some && reported->0 >= page ==> r == Some(
            (page - 1) as usize,
        ),
        books_empty && page > 1 && reported is Some && 1 <= reported->0 < page ==> r == reported,
        books_empty && page > 1 && reported == Some(0usize) ==> r == Some(1usize),
{
}

/// A page of results holds the books that were found, and counts the pages by
/// what the header says.
pub proof fn law_results(
    header: Option<String>,
    page: usize,
    books: Vec<Book>,
    r: SearchResults,
    reported: Option<usize>,
)
    requires
        call_ensures(results, (header, page, books), r),
        call_ensures(total_pages, (header,), reported),
    ensures
        r.books == books,
        books@.len() > 0 || page <= 1 ==> r.total_pages == reported,
        books@.len() == 0 && page > 1 ==> r.total_pages == usable_pages(reported, page, true),
{
}

/// The size is asked for the first file of a book only.
pub proof fn law_sized_files()
    ensures
        SIZED_FILES == 1,
{
}

/// The books of a post are those of its blocks; those of a search those of its
/// posts.
pub proof fn law_books_of_the_posts(
    post: u64,
    author: &Option<String>,
    blocks: &Vec<Vec<html::FileLink>>,
    r: Vec<Book>,
    posts: &Vec<Post>,
    limit: usize,
    all: Vec<Book>,
)
    requires
        call_ensures(books_from_blocks, (post, author, blocks), r),
        call_ensures(parse_posts, (posts, limit), all),
    ensures
        crate::source::books_view(r@) == block_books(
            post,
            text::text_in(*author),
            html::blocks_view(blocks@),
            blocks@.len() as int,
        ),
        crate::source::books_view(all@) == posted(
            posts_view(posts@),
            posts@.len() as int,
            limit as nat,
        ),
        all@.len() <= limit,
{
    law_files_are_distinct(posts_view(posts@), posts@.len() as int, limit as nat);
    assert(crate::source::books_view(all@).len() == all@.len());
}

/// Books are added at the end of a list.
pub proof fn law_lists_are_extended(books: &mut Vec<Book>, more: Vec<Book>, limit: usize, r: ())
    requires
        call_ensures(extend_distinct, (books, more, limit), r),
    ensures
        crate::source::books_view(final(books)@) == extended(
            crate::source::books_view(old(books)@),
            crate::source::books_view(more@),
            limit as nat,
        ),
{
}

/// A post can be read if neither its title nor its content is too long; its text
/// has single spaces, and an empty one is none.
pub proof fn law_posts_are_read(
    post: &Post,
    fits: bool,
    title: bool,
    content: bool,
    value: &str,
    r: Option<String>,
)
    requires
        call_ensures(Post::fits, (post,), fits),
        title == html::is_page(post.title.rendered@),
        content == html::is_page(post.content.rendered@),
        call_ensures(text_from_html, (value,), r),
    ensures
        fits <==> title && content,
        words::squeezed(html::fragment_text(value@)).len() == 0 ==> r is None,
        words::squeezed(html::fragment_text(value@)).len() > 0 ==> r is Some && r->0@
            == words::squeezed(html::fragment_text(value@)),
{
}

} // verus!
