//! What the catalogs' HTML pages hold, read with the `scraper` crate.
//!
//! Each function parses a page, finds the elements that some CSS selectors
//! name, and hands out what those elements hold as plain values. Which parts
//! of a page mean what is decided elsewhere. A selector that `scraper` cannot
//! parse selects nothing.

use scraper::{ElementRef, Html, Selector};
use vstd::prelude::*;

use crate::text;

verus! {

// ---- what can be parsed -------------------------------------------------------

/// The most characters a page can have. The parser keeps the length of a text
/// in 32 bits and doubles its room as it grows, so it panics on texts that take
/// more than 2^31 bytes; a character takes four at most.
pub const LONGEST_PAGE: usize = 0x1fff_ffff;

/// The most characters a selector can have: the parser calls itself for each
/// selector in brackets, and must not run out of stack.
pub const LONGEST_SELECTOR: usize = 100;

/// The page is short enough to be parsed.
pub open spec fn is_page(page: Seq<char>) -> bool {
    page.len() <= LONGEST_PAGE
}

/// The selector is short enough to be parsed.
pub open spec fn is_selector(css: Seq<char>) -> bool {
    css.len() <= LONGEST_SELECTOR
}

/// Whether the page is short enough to be parsed.
pub fn fits(page: &str) -> (r: bool)
    ensures
        r == is_page(page@),
{
    page.unicode_len() <= LONGEST_PAGE
}

// ---- links ------------------------------------------------------------------

/// The `href` attributes of the elements of the document `body` that the
/// selector `css` names, in document order.
pub uninterp spec fn document_links(body: Seq<char>, css: Seq<char>) -> Seq<Option<Seq<char>>>;

/// `scraper::Html::parse_document`, then `Html::select` with `css`: the `href`
/// attribute of each element found. What the page holds is named, not stated.
#[verifier::external_body]
pub(crate) fn links(body: &str, css: &str) -> (r: Vec<Option<String>>)
    requires
        is_page(body@),
        is_selector(css@),
    ensures
        text::texts_in(r@) == document_links(body@, css@),
{
    let document = Html::parse_document(body);
    let Ok(selector) = Selector::parse(css) else {
        return Vec::new();
    };
    document.select(&selector).map(|link| link.attr("href").map(str::to_string)).collect()
}

// ---- table rows -------------------------------------------------------------

/// One cell of a results table.
#[derive(Debug)]
pub struct Cell {
    /// All text in the cell.
    pub text: String,
    /// For each title element: its child nodes, of which only texts are kept.
    pub titles: Vec<Vec<Option<String>>>,
    /// The `href` of each link.
    pub links: Vec<Option<String>>,
}

/// The mathematical counterpart of [`Cell`].
pub struct CellView {
    pub text: Seq<char>,
    pub titles: Seq<Seq<Option<Seq<char>>>>,
    pub links: Seq<Option<Seq<char>>>,
}

impl View for Cell {
    type V = CellView;

    open spec fn view(&self) -> CellView {
        CellView {
            text: self.text@,
            titles: Seq::new(self.titles@.len(), |i: int| text::texts_in(self.titles@[i]@)),
            links: text::texts_in(self.links@),
        }
    }
}

/// What the cells of one row hold.
pub open spec fn row_view(row: Seq<Cell>) -> Seq<CellView> {
    Seq::new(row.len(), |i: int| row[i]@)
}

/// What the rows of a table hold.
pub open spec fn rows_view(rows: Seq<Vec<Cell>>) -> Seq<Seq<CellView>> {
    Seq::new(rows.len(), |i: int| row_view(rows[i]@))
}

/// The cells that `cell` names, of each row that `row` names, in the document
/// `body`; with the elements that `title` and `link` name in each cell.
pub uninterp spec fn document_rows(
    body: Seq<char>,
    row: Seq<char>,
    cell: Seq<char>,
    title: Seq<char>,
    link: Seq<char>,
) -> Seq<Seq<CellView>>;

/// `scraper::Html::parse_document`, `Html::select` for the rows, and
/// `ElementRef::select` for the cells of each row and for the title elements
/// and links of each cell. What the page holds is named, not stated.
#[verifier::external_body]
pub(crate) fn table_rows(body: &str, row: &str, cell: &str, title: &str, link: &str) -> (r: Vec<
    Vec<Cell>,
>)
    requires
        is_page(body@),
        is_selector(row@),
        is_selector(cell@),
        is_selector(title@),
        is_selector(link@),
    ensures
        rows_view(r@) == document_rows(body@, row@, cell@, title@, link@),
{
    let document = Html::parse_document(body);
    let [Ok(rows), Ok(cells), Ok(titles), Ok(links)] = [row, cell, title, link].map(Selector::parse) else {
        return vec![]
    };
    document.select(&rows).map(|row| row.select(&cells).map(|cell| Cell {
        text: cell.text().collect(),
        titles: cell.select(&titles).map(|title| title.children().map(|node|
            node.value().as_text().map(|text| text.to_string())
        ).collect()).collect(),
        links: cell.select(&links).map(|link| link.attr("href").map(str::to_string)).collect()
    }).collect()).collect()
}

// ---- listed books -------------------------------------------------------------

/// One entry of a list of books.
#[derive(Debug)]
pub struct Listed {
    /// The text of each title element.
    pub titles: Vec<String>,
    /// The text of each author element.
    pub authors: Vec<String>,
    /// The `href` of each link.
    pub links: Vec<Option<String>>,
}

/// The mathematical counterpart of [`Listed`].
pub struct ListedView {
    pub titles: Seq<Seq<char>>,
    pub authors: Seq<Seq<char>>,
    pub links: Seq<Option<Seq<char>>>,
}

impl View for Listed {
    type V = ListedView;

    open spec fn view(&self) -> ListedView {
        ListedView {
            titles: text::texts(self.titles@),
            authors: text::texts(self.authors@),
            links: text::texts_in(self.links@),
        }
    }
}

/// What a list of entries holds.
pub open spec fn listed_view(list: Seq<Listed>) -> Seq<ListedView> {
    Seq::new(list.len(), |i: int| list[i]@)
}

/// The elements that `entry` names in the document `body`, each with the
/// elements that `title`, `author` and `link` name in it.
pub uninterp spec fn document_entries(
    body: Seq<char>,
    entry: Seq<char>,
    title: Seq<char>,
    author: Seq<char>,
    link: Seq<char>,
) -> Seq<ListedView>;

/// `scraper::Html::parse_document`, `Html::select` for the entries, and
/// `ElementRef::select` for the titles, authors and links of each. What the
/// page holds is named, not stated.
#[verifier::external_body]
pub(crate) fn entries(body: &str, entry: &str, title: &str, author: &str, link: &str) -> (r: Vec<
    Listed,
>)
    requires
        is_page(body@),
        is_selector(entry@),
        is_selector(title@),
        is_selector(author@),
        is_selector(link@),
    ensures
        listed_view(r@) == document_entries(body@, entry@, title@, author@, link@),
{
    let document = Html::parse_document(body);
    let selectors = [entry, title, author, link].map(Selector::parse);
    let [Ok(entries), Ok(titles), Ok(authors), Ok(links)] = &selectors else {
        return Vec::new();
    };
    document.select(entries).map(|entry| Listed {
        titles: entry.select(titles).map(|title| title.text().collect()).collect(),
        authors: entry.select(authors).map(|author| author.text().collect()).collect(),
        links: entry.select(links).map(|link| link.attr("href").map(str::to_string)).collect(),
    }).collect()
}

// ---- file blocks --------------------------------------------------------------

/// A link to a file.
#[derive(Debug)]
pub struct FileLink {
    pub href: Option<String>,
    pub text: String,
}

/// The mathematical counterpart of [`FileLink`].
pub struct FileLinkView {
    pub href: Option<Seq<char>>,
    pub text: Seq<char>,
}

impl View for FileLink {
    type V = FileLinkView;

    open spec fn view(&self) -> FileLinkView {
        FileLinkView { href: text::text_in(self.href), text: self.text@ }
    }
}

/// What the links of one block hold.
pub open spec fn block_view(block: Seq<FileLink>) -> Seq<FileLinkView> {
    Seq::new(block.len(), |i: int| block[i]@)
}

/// What the links of all blocks hold.
pub open spec fn blocks_view(blocks: Seq<Vec<FileLink>>) -> Seq<Seq<FileLinkView>> {
    Seq::new(blocks.len(), |i: int| block_view(blocks[i]@))
}

/// The links that `link` names in each element that `file` names in the HTML
/// fragment `html`.
pub uninterp spec fn fragment_files(html: Seq<char>, file: Seq<char>, link: Seq<char>) -> Seq<
    Seq<FileLinkView>,
>;

/// `scraper::Html::parse_fragment`, `Html::select` for the file blocks, and
/// `ElementRef::select` for the links of each. What the fragment holds is
/// named, not stated.
#[verifier::external_body]
pub(crate) fn file_blocks(html: &str, file: &str, link: &str) -> (r: Vec<Vec<FileLink>>)
    requires
        is_page(html@),
        is_selector(file@),
        is_selector(link@),
    ensures
        blocks_view(r@) == fragment_files(html@, file@, link@),
{
    let fragment = Html::parse_fragment(html);
    let (Ok(files), Ok(links)) = (Selector::parse(file), Selector::parse(link)) else {
        return Vec::new();
    };
    fragment.select(&files).map(|file| file.select(&links).map(|link| FileLink {
        href: link.attr("href").map(str::to_string),
        text: link.text().collect(),
    }).collect()).collect()
}

/// All text in the HTML fragment `html`.
pub uninterp spec fn fragment_text(html: Seq<char>) -> Seq<char>;

/// `scraper::Html::parse_fragment`, then `Html::root_element` and
/// `ElementRef::text`: all text in the fragment. It is named, not stated.
#[verifier::external_body]
pub(crate) fn plain_text(html: &str) -> (r: String)
    requires
        is_page(html@),
    ensures
        r@ == fragment_text(html@),
{
    Html::parse_fragment(html).root_element().text().collect()
}

// ---- results with their surroundings --------------------------------------------

/// An element around a link.
#[derive(Debug)]
pub struct Frame {
    /// The name of its tag.
    pub tag: String,
    /// Its `class` attribute.
    pub class: Option<String>,
}

/// A link and what is around it.
#[derive(Debug)]
pub struct FramedLink {
    pub href: Option<String>,
    pub text: String,
    /// The nodes around the link, the closest first, of which only elements are
    /// kept.
    pub around: Vec<Option<Frame>>,
}

/// The mathematical counterpart of [`Frame`].
pub struct FrameView {
    pub tag: Seq<char>,
    pub class: Option<Seq<char>>,
}

/// The mathematical counterpart of [`FramedLink`].
pub struct FramedLinkView {
    pub href: Option<Seq<char>>,
    pub text: Seq<char>,
    pub around: Seq<Option<FrameView>>,
}

/// The element in an optional one.
pub open spec fn frame_in(value: Option<Frame>) -> Option<FrameView> {
    match value {
        Some(frame) => Some(
            FrameView { tag: frame.tag@, class: text::text_in(frame.class) },
        ),
        None => None,
    }
}

impl View for FramedLink {
    type V = FramedLinkView;

    open spec fn view(&self) -> FramedLinkView {
        FramedLinkView {
            href: text::text_in(self.href),
            text: self.text@,
            around: Seq::new(self.around@.len(), |i: int| frame_in(self.around@[i])),
        }
    }
}

/// What a list of links holds.
pub open spec fn framed_view(list: Seq<FramedLink>) -> Seq<FramedLinkView> {
    Seq::new(list.len(), |i: int| list[i]@)
}

/// The elements that `css` names in the document `body`, each with the nodes
/// around it.
pub uninterp spec fn document_frames(body: Seq<char>, css: Seq<char>) -> Seq<FramedLinkView>;

/// `scraper::Html::parse_document`, `Html::select` for the links, and
/// `NodeRef::ancestors` and `ElementRef::wrap` for the elements around each.
/// What the page holds is named, not stated.
#[verifier::external_body]
fn framed_links(body: &str, css: &str) -> (r: Vec<FramedLink>)
    requires
        is_page(body@),
        is_selector(css@),
    ensures
        framed_view(r@) == document_frames(body@, css@),
{
    let document = Html::parse_document(body);
    let Ok(links) = Selector::parse(css) else {
        return Vec::new();
    };
    let frame = |element: ElementRef<'_>| Frame {
        tag: element.value().name().to_string(),
        class: element.attr("class").map(str::to_string),
    };
    document.select(&links).map(|link| FramedLink {
        href: link.attr("href").map(str::to_string),
        text: link.text().collect(),
        around: link.ancestors().map(|node| ElementRef::wrap(node).map(frame)).collect(),
    }).collect()
}

/// What texts stand around the links of a page: for each link, and for each
/// node around it that is an element, the texts found in it.
pub open spec fn around_view(list: Seq<Vec<Option<Vec<String>>>>) -> Seq<
    Seq<Option<Seq<Seq<char>>>>,
> {
    Seq::new(
        list.len(),
        |i: int|
            Seq::new(
                list[i]@.len(),
                |j: int|
                    match list[i]@[j] {
                        Some(found) => Some(text::texts(found@)),
                        None => None,
                    },
            ),
    )
}

/// For each element that `link` names in the document `body`, and each node
/// around it that is an element, the texts of the elements that `css` names in
/// that.
pub uninterp spec fn document_surroundings(
    body: Seq<char>,
    link: Seq<char>,
    css: Seq<char>,
) -> Seq<Seq<Option<Seq<Seq<char>>>>>;

/// `scraper::Html::parse_document`, `Html::select` for the links,
/// `NodeRef::ancestors` and `ElementRef::wrap` for the elements around each,
/// and `ElementRef::select` for the elements in those. What the page holds is
/// named, not stated.
#[verifier::external_body]
fn texts_around(body: &str, link: &str, css: &str) -> (r: Vec<Vec<Option<Vec<String>>>>)
    requires
        is_page(body@),
        is_selector(link@),
        is_selector(css@),
    ensures
        around_view(r@) == document_surroundings(body@, link@, css@),
{
    let document = Html::parse_document(body);
    let (Ok(links), Ok(wanted)) = (Selector::parse(link), Selector::parse(css)) else {
        return Vec::new();
    };
    let texts = |e: ElementRef<'_>| e.select(&wanted).map(|found| found.text().collect()).collect();
    document.select(&links).map(|link| {
        link.ancestors().map(|node| ElementRef::wrap(node).map(texts)).collect()
    }).collect()
}

/// An element around a result.
#[derive(Debug)]
pub struct Ancestor {
    /// The name of its tag.
    pub tag: String,
    /// Its `class` attribute.
    pub class: Option<String>,
    /// The text of each author element in it.
    pub authors: Vec<String>,
    /// The text of each metadata element in it.
    pub metadata: Vec<String>,
}

/// The mathematical counterpart of [`Ancestor`].
#[verifier::ext_equal]
pub struct AncestorView {
    pub tag: Seq<char>,
    pub class: Option<Seq<char>>,
    pub authors: Seq<Seq<char>>,
    pub metadata: Seq<Seq<char>>,
}

impl View for Ancestor {
    type V = AncestorView;

    open spec fn view(&self) -> AncestorView {
        AncestorView {
            tag: self.tag@,
            class: text::text_in(self.class),
            authors: text::texts(self.authors@),
            metadata: text::texts(self.metadata@),
        }
    }
}

/// The element in an optional one.
pub open spec fn ancestor_in(value: Option<Ancestor>) -> Option<AncestorView> {
    match value {
        Some(element) => Some(element@),
        None => None,
    }
}

/// What a list of surrounding nodes holds.
pub open spec fn ancestors_view(list: Seq<Option<Ancestor>>) -> Seq<Option<AncestorView>> {
    Seq::new(list.len(), |i: int| ancestor_in(list[i]))
}

/// A link to a result.
#[derive(Debug)]
pub struct ResultLink {
    pub href: Option<String>,
    pub text: String,
    /// The nodes around the link, the closest first, of which only elements are
    /// kept.
    pub around: Vec<Option<Ancestor>>,
}

/// The mathematical counterpart of [`ResultLink`].
pub struct ResultLinkView {
    pub href: Option<Seq<char>>,
    pub text: Seq<char>,
    pub around: Seq<Option<AncestorView>>,
}

impl View for ResultLink {
    type V = ResultLinkView;

    open spec fn view(&self) -> ResultLinkView {
        ResultLinkView {
            href: text::text_in(self.href),
            text: self.text@,
            around: ancestors_view(self.around@),
        }
    }
}

/// What a list of result links holds.
pub open spec fn results_view(list: Seq<ResultLink>) -> Seq<ResultLinkView> {
    Seq::new(list.len(), |i: int| list[i]@)
}

/// The texts found in the node at `place` around the link `i`.
pub open spec fn found_at(
    around: Seq<Seq<Option<Seq<Seq<char>>>>>,
    i: int,
    place: int,
) -> Seq<Seq<char>> {
    if 0 <= i < around.len() && 0 <= place < around[i].len() && around[i][place] is Some {
        around[i][place]->0
    } else {
        seq![]
    }
}

/// The link `i` with the authors and the metadata found around it.
pub open spec fn result_of(
    link: FramedLinkView,
    authors: Seq<Seq<Option<Seq<Seq<char>>>>>,
    metadata: Seq<Seq<Option<Seq<Seq<char>>>>>,
    i: int,
) -> ResultLinkView {
    ResultLinkView {
        href: link.href,
        text: link.text,
        around: Seq::new(
            link.around.len(),
            |place: int|
                match link.around[place] {
                    Some(frame) => Some(
                        AncestorView {
                            tag: frame.tag,
                            class: frame.class,
                            authors: found_at(authors, i, place),
                            metadata: found_at(metadata, i, place),
                        },
                    ),
                    None => None,
                },
        ),
    }
}

/// The links with the authors and the metadata found around them.
pub open spec fn results_of(
    links: Seq<FramedLinkView>,
    authors: Seq<Seq<Option<Seq<Seq<char>>>>>,
    metadata: Seq<Seq<Option<Seq<Seq<char>>>>>,
) -> Seq<ResultLinkView> {
    Seq::new(links.len(), |i: int| result_of(links[i], authors, metadata, i))
}

/// The elements that `link` names in the document `body`, each with the nodes
/// around it, and in those that are elements the elements that `author` and
/// `metadata` name.
pub open spec fn document_results(
    body: Seq<char>,
    link: Seq<char>,
    author: Seq<char>,
    metadata: Seq<char>,
) -> Seq<ResultLinkView> {
    results_of(
        document_frames(body, link),
        document_surroundings(body, link, author),
        document_surroundings(body, link, metadata),
    )
}

fn take_found(around: &Vec<Vec<Option<Vec<String>>>>, i: usize, place: usize) -> (r: Vec<String>)
    ensures
        text::texts(r@) == found_at(around_view(around@), i as int, place as int),
{
    if i < around.len() && place < around[i].len() {
        if let Some(found) = &around[i][place] {
            return text::copy_texts(found);
        }
    }
    let none: Vec<String> = Vec::new();
    assert(text::texts(none@) =~= seq![]);
    none
}

fn attach(
    link: FramedLink,
    authors: &Vec<Vec<Option<Vec<String>>>>,
    metadata: &Vec<Vec<Option<Vec<String>>>>,
    i: usize,
) -> (r: ResultLink)
    ensures
        r@ == result_of(link@, around_view(authors@), around_view(metadata@), i as int),
{
    let ghost view = link@;
    let ghost frames = link.around@;
    let ghost expected = result_of(
        view,
        around_view(authors@),
        around_view(metadata@),
        i as int,
    );
    let mut around: Vec<Option<Ancestor>> = Vec::new();
    let mut place: usize = 0;
    let total: usize = link.around.len();
    for frame in it: link.around
        invariant
            it.seq() == frames,
            total == frames.len(),
            place == it.index(),
            view.around == Seq::new(frames.len(), |i: int| frame_in(frames[i])),
            expected == result_of(
                view,
                around_view(authors@),
                around_view(metadata@),
                i as int,
            ),
            around@.len() == place,
            forall|k: int|
                0 <= k < place ==> ancestor_in(#[trigger] around@[k]) == expected.around[k],
    {
        assert(view.around[place as int] == frame_in(frame));
        let node = match frame {
            Some(frame) => Some(
                Ancestor {
                    tag: frame.tag,
                    class: frame.class,
                    authors: take_found(authors, i, place),
                    metadata: take_found(metadata, i, place),
                },
            ),
            None => None,
        };
        assert(ancestor_in(node) == expected.around[place as int]);
        around.push(node);
        place += 1;
    }
    assert(ancestors_view(around@) =~= expected.around);
    ResultLink { href: link.href, text: link.text, around }
}

/// The links with the authors and the metadata found around them.
pub fn attach_all(
    links: Vec<FramedLink>,
    authors: &Vec<Vec<Option<Vec<String>>>>,
    metadata: &Vec<Vec<Option<Vec<String>>>>,
) -> (r: Vec<ResultLink>)
    ensures
        results_view(r@) == results_of(
            framed_view(links@),
            around_view(authors@),
            around_view(metadata@),
        ),
{
    let ghost all = links@;
    let ghost expected = results_of(
        framed_view(all),
        around_view(authors@),
        around_view(metadata@),
    );
    let mut out: Vec<ResultLink> = Vec::new();
    let mut i: usize = 0;
    let total: usize = links.len();
    for link in it: links
        invariant
            it.seq() == all,
            total == all.len(),
            i == it.index(),
            expected == results_of(
                framed_view(all),
                around_view(authors@),
                around_view(metadata@),
            ),
            out@.len() == i,
            forall|k: int| 0 <= k < i ==> (#[trigger] out@[k])@ == expected[k],
    {
        assert(framed_view(all)[i as int] == link@);
        out.push(attach(link, authors, metadata, i));
        i += 1;
    }
    assert(results_view(out@) =~= expected);
    out
}

/// The links to results on a page, with the authors and the metadata found
/// around them.
pub fn result_links(body: &str, link: &str, author: &str, metadata: &str) -> (r: Vec<ResultLink>)
    requires
        is_page(body@),
        is_selector(link@),
        is_selector(author@),
        is_selector(metadata@),
    ensures
        results_view(r@) == document_results(body@, link@, author@, metadata@),
{
    let links = framed_links(body, link);
    let authors = texts_around(body, link, author);
    let metadata = texts_around(body, link, metadata);
    attach_all(links, &authors, &metadata)
}

// ---- laws -------------------------------------------------------------------------

/// A page is parsed unless it is longer than the parser can take.
pub proof fn law_pages_that_fit(page: &str, r: bool)
    requires
        call_ensures(fits, (page,), r),
    ensures
        r <==> page@.len() <= 0x1fff_ffff,
{
}

/// Each link keeps its address, its text and the elements around it; and each of
/// those elements gets the authors and the metadata that were found in it, at
/// the same link and the same place.
pub proof fn law_surroundings_are_attached(
    links: Vec<FramedLink>,
    authors: &Vec<Vec<Option<Vec<String>>>>,
    metadata: &Vec<Vec<Option<Vec<String>>>>,
    r: Vec<ResultLink>,
    i: int,
    place: int,
)
    requires
        call_ensures(attach_all, (links, authors, metadata), r),
        0 <= i < links@.len(),
        0 <= place < links@[i].around@.len(),
    ensures
        r@.len() == links@.len(),
        r@[i]@.href == text::text_in(links@[i].href),
        r@[i]@.text == links@[i].text@,
        r@[i]@.around.len() == links@[i].around@.len(),
        links@[i].around@[place] is None ==> r@[i]@.around[place] is None,
        links@[i].around@[place] matches Some(frame) ==> {
            let element = r@[i]@.around[place]->0;
            &&& r@[i]@.around[place] is Some
            &&& element.tag == frame.tag@
            &&& element.class == text::text_in(frame.class)
            &&& i < authors@.len() && place < authors@[i]@.len() && authors@[i]@[place] is Some
                ==> element.authors == text::texts(authors@[i]@[place]->0@)
            &&& i < metadata@.len() && place < metadata@[i]@.len() && metadata@[i]@[place] is Some
                ==> element.metadata == text::texts(metadata@[i]@[place]->0@)
            &&& i >= authors@.len() ==> element.authors.len() == 0
            &&& i >= metadata@.len() ==> element.metadata.len() == 0
        },
{
    let all = framed_view(links@);
    let found = around_view(authors@);
    let lines = around_view(metadata@);
    assert(results_view(r@).len() == r@.len());
    assert(results_view(r@)[i] == r@[i]@);
    assert(all[i] == links@[i]@);
    assert(all[i].around[place] == frame_in(links@[i].around@[place]));
    if i < authors@.len() && place < authors@[i]@.len() && authors@[i]@[place] is Some {
        assert(found[i][place] == Some(text::texts(authors@[i]@[place]->0@)));
    }
    if i < metadata@.len() && place < metadata@[i]@.len() && metadata@[i]@[place] is Some {
        assert(lines[i][place] == Some(text::texts(metadata@[i]@[place]->0@)));
    }
}

/// The results of a page are its links with what is found around those same
/// links.
pub proof fn law_results_of_a_page(
    body: &str,
    link: &str,
    author: &str,
    metadata: &str,
    r: Vec<ResultLink>,
)
    requires
        call_ensures(result_links, (body, link, author, metadata), r),
    ensures
        results_view(r@) == results_of(
            document_frames(body@, link@),
            document_surroundings(body@, link@, author@),
            document_surroundings(body@, link@, metadata@),
        ),
{
}

} // verus!
