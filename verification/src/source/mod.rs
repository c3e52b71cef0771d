//! Book catalogs the app can search.
//!
//! A source turns a query into a request, and the reply into books. What is
//! shared by all of them stands here and in [`http`]: the books themselves, the
//! names of the files they are saved under, and the rules of a download. Adding
//! a source means two things: implement [`Source`] for it, and add it to
//! [`all`].

use vstd::prelude::*;

use crate::number;
use crate::text;
use crate::words;

pub mod annas_archive;
pub mod e_biblioteka;
pub mod gutendex;
pub mod html_catalog;
pub mod http;
pub mod libgen;

verus! {

broadcast use crate::text::lemma_texts_push;

/// A file format that a catalog offers.
#[derive(Debug, PartialEq, Eq)]
pub enum Format {
    Epub,
    Pdf,
    Txt,
    Html,
    Mobi,
    Azw3,
    Djvu,
    Fb2,
    Torrent,
    Other(String),
}

/// The mathematical counterpart of [`Format`].
pub enum FormatView {
    Epub,
    Pdf,
    Txt,
    Html,
    Mobi,
    Azw3,
    Djvu,
    Fb2,
    Torrent,
    Other(Seq<char>),
}

impl View for Format {
    type V = FormatView;

    open spec fn view(&self) -> FormatView {
        match self {
            Format::Epub => FormatView::Epub,
            Format::Pdf => FormatView::Pdf,
            Format::Txt => FormatView::Txt,
            Format::Html => FormatView::Html,
            Format::Mobi => FormatView::Mobi,
            Format::Azw3 => FormatView::Azw3,
            Format::Djvu => FormatView::Djvu,
            Format::Fb2 => FormatView::Fb2,
            Format::Torrent => FormatView::Torrent,
            Format::Other(name) => FormatView::Other(name@),
        }
    }
}

impl FormatView {
    /// The file extension of the format.
    pub open spec fn extension(self) -> Seq<char> {
        match self {
            FormatView::Epub => "epub"@,
            FormatView::Pdf => "pdf"@,
            FormatView::Txt => "txt"@,
            FormatView::Html => "html"@,
            FormatView::Mobi => "mobi"@,
            FormatView::Azw3 => "azw3"@,
            FormatView::Djvu => "djvu"@,
            FormatView::Fb2 => "fb2"@,
            FormatView::Torrent => "torrent"@,
            FormatView::Other(_) => "bin"@,
        }
    }

    /// The name that is shown for the format.
    pub open spec fn label(self) -> Seq<char> {
        match self {
            FormatView::Other(name) => name,
            _ => self.extension(),
        }
    }

    /// The format of a media type without parameters.
    pub open spec fn of_media_type(mime: Seq<char>) -> FormatView {
        if mime == "application/epub+zip"@ {
            FormatView::Epub
        } else if mime == "application/pdf"@ {
            FormatView::Pdf
        } else if mime == "text/plain"@ {
            FormatView::Txt
        } else if mime == "text/html"@ {
            FormatView::Html
        } else if mime == "application/x-mobipocket-ebook"@ {
            FormatView::Mobi
        } else if mime == "application/x-bittorrent"@ {
            FormatView::Torrent
        } else {
            FormatView::Other(mime)
        }
    }

    /// The ebook format with the small-letter extension `ext`.
    pub open spec fn of_extension(ext: Seq<char>) -> Option<FormatView> {
        if ext == "epub"@ {
            Some(FormatView::Epub)
        } else if ext == "pdf"@ {
            Some(FormatView::Pdf)
        } else if ext == "txt"@ {
            Some(FormatView::Txt)
        } else if ext == "html"@ || ext == "htm"@ {
            Some(FormatView::Html)
        } else if ext == "mobi"@ {
            Some(FormatView::Mobi)
        } else if ext == "azw3"@ {
            Some(FormatView::Azw3)
        } else if ext == "djvu"@ {
            Some(FormatView::Djvu)
        } else if ext == "fb2"@ {
            Some(FormatView::Fb2)
        } else {
            None
        }
    }
}

/// The format in an optional one.
pub open spec fn format_in(value: Option<Format>) -> Option<FormatView> {
    match value {
        Some(format) => Some(format@),
        None => None,
    }
}

impl Clone for Format {
    fn clone(&self) -> (r: Format)
        ensures
            r@ == self@,
    {
        match self {
            Format::Epub => Format::Epub,
            Format::Pdf => Format::Pdf,
            Format::Txt => Format::Txt,
            Format::Html => Format::Html,
            Format::Mobi => Format::Mobi,
            Format::Azw3 => Format::Azw3,
            Format::Djvu => Format::Djvu,
            Format::Fb2 => Format::Fb2,
            Format::Torrent => Format::Torrent,
            Format::Other(name) => Format::Other(name.clone()),
        }
    }
}

impl Format {
    /// The file extension of the format.
    pub fn extension(&self) -> (r: &str)
        ensures
            r@ == self@.extension(),
    {
        match self {
            Format::Epub => "epub",
            Format::Pdf => "pdf",
            Format::Txt => "txt",
            Format::Html => "html",
            Format::Mobi => "mobi",
            Format::Azw3 => "azw3",
            Format::Djvu => "djvu",
            Format::Fb2 => "fb2",
            Format::Torrent => "torrent",
            Format::Other(_) => "bin",
        }
    }

    /// Map a Content-Type to a format, ignoring any `; charset=...` suffix.
    pub fn from_mime(mime: &str) -> (r: Format)
        ensures
            r@ == FormatView::of_media_type(
                text::trimmed(words::pieces(mime@, seq![';']).first()),
            ),
    {
        let stops: [char; 1] = [';'];
        assert(stops@ =~= seq![';']);
        let head = words::first_piece(mime, &stops);
        let kind = text::trim(head.as_str());
        let kind_text = kind.as_str();
        if text::same(kind_text, "application/epub+zip") {
            Format::Epub
        } else if text::same(kind_text, "application/pdf") {
            Format::Pdf
        } else if text::same(kind_text, "text/plain") {
            Format::Txt
        } else if text::same(kind_text, "text/html") {
            Format::Html
        } else if text::same(kind_text, "application/x-mobipocket-ebook") {
            Format::Mobi
        } else if text::same(kind_text, "application/x-bittorrent") {
            Format::Torrent
        } else {
            Format::Other(kind)
        }
    }

    /// The ebook format with the small-letter extension `ext`, if any.
    pub fn from_extension(ext: &str) -> (r: Option<Format>)
        ensures
            format_in(r) == FormatView::of_extension(ext@),
    {
        if text::same(ext, "epub") {
            Some(Format::Epub)
        } else if text::same(ext, "pdf") {
            Some(Format::Pdf)
        } else if text::same(ext, "txt") {
            Some(Format::Txt)
        } else if text::same(ext, "html") || text::same(ext, "htm") {
            Some(Format::Html)
        } else if text::same(ext, "mobi") {
            Some(Format::Mobi)
        } else if text::same(ext, "azw3") {
            Some(Format::Azw3)
        } else if text::same(ext, "djvu") {
            Some(Format::Djvu)
        } else if text::same(ext, "fb2") {
            Some(Format::Fb2)
        } else {
            None
        }
    }

    /// The name that is shown for the format: its extension, or the media type
    /// of a format without one.
    pub fn label(&self) -> (r: String)
        ensures
            r@ == self@.label(),
    {
        match self {
            Format::Other(name) => name.clone(),
            _ => self.extension().to_owned(),
        }
    }

    /// Whether two formats are the same.
    pub fn is(&self, other: &Format) -> (r: bool)
        ensures
            r == (self@ == other@),
    {
        match (self, other) {
            (Format::Epub, Format::Epub) => true,
            (Format::Pdf, Format::Pdf) => true,
            (Format::Txt, Format::Txt) => true,
            (Format::Html, Format::Html) => true,
            (Format::Mobi, Format::Mobi) => true,
            (Format::Azw3, Format::Azw3) => true,
            (Format::Djvu, Format::Djvu) => true,
            (Format::Fb2, Format::Fb2) => true,
            (Format::Torrent, Format::Torrent) => true,
            (Format::Other(a), Format::Other(b)) => text::same(a.as_str(), b.as_str()),
            _ => false,
        }
    }
}

/// An ebook format is known by its file extension.
pub proof fn law_extensions_lead_back(ext: Seq<char>)
    requires
        FormatView::of_extension(ext) is Some,
    ensures
        FormatView::of_extension(FormatView::of_extension(ext)->0.extension())
            == FormatView::of_extension(ext),
{
    reveal_strlit("epub");
    reveal_strlit("pdf");
    reveal_strlit("txt");
    reveal_strlit("html");
    reveal_strlit("htm");
    reveal_strlit("mobi");
    reveal_strlit("azw3");
    reveal_strlit("djvu");
    reveal_strlit("fb2");
    assert("epub"@[0] == 'e' && "pdf"@[0] == 'p' && "txt"@[0] == 't' && "html"@[0] == 'h');
    assert("mobi"@[0] == 'm' && "azw3"@[0] == 'a' && "djvu"@[0] == 'd' && "fb2"@[0] == 'f');
    assert("htm"@[0] == 'h');
}

/// One downloadable file belonging to a book.
#[derive(Debug)]
pub struct Download {
    pub format: Format,
    pub url: String,
    /// Only some sources report this up front.
    pub size: Option<u64>,
}

/// The mathematical counterpart of [`Download`].
pub struct DownloadView {
    pub format: FormatView,
    pub url: Seq<char>,
    pub size: Option<u64>,
}

impl View for Download {
    type V = DownloadView;

    open spec fn view(&self) -> DownloadView {
        DownloadView { format: self.format@, url: self.url@, size: self.size }
    }
}

impl Clone for Download {
    fn clone(&self) -> (r: Download)
        ensures
            r@ == self@,
    {
        Download { format: self.format.clone(), url: self.url.clone(), size: self.size }
    }
}

/// What a list of downloads holds.
pub open spec fn downloads_view(list: Seq<Download>) -> Seq<DownloadView> {
    Seq::new(list.len(), |i: int| list[i]@)
}

/// A book as a source lists it.
#[derive(Debug)]
pub struct Book {
    pub source: &'static str,
    pub id: String,
    pub title: String,
    pub authors: Vec<String>,
    pub language: Option<String>,
    pub downloads: Vec<Download>,
}

/// The mathematical counterpart of [`Book`].
#[verifier::ext_equal]
pub struct BookView {
    pub source: Seq<char>,
    pub id: Seq<char>,
    pub title: Seq<char>,
    pub authors: Seq<Seq<char>>,
    pub language: Option<Seq<char>>,
    pub downloads: Seq<DownloadView>,
}

impl View for Book {
    type V = BookView;

    open spec fn view(&self) -> BookView {
        BookView {
            source: self.source@,
            id: self.id@,
            title: self.title@,
            authors: text::texts(self.authors@),
            language: text::text_in(self.language),
            downloads: downloads_view(self.downloads@),
        }
    }
}

/// What a list of books holds.
pub open spec fn books_view(list: Seq<Book>) -> Seq<BookView> {
    Seq::new(list.len(), |i: int| list[i]@)
}

pub broadcast proof fn lemma_books_push(list: Seq<Book>, book: Book)
    ensures
        #[trigger] books_view(list.push(book)) == books_view(list).push(book@),
{
    assert(books_view(list.push(book)) =~= books_view(list).push(book@));
}

pub broadcast proof fn lemma_downloads_push(list: Seq<Download>, download: Download)
    ensures
        #[trigger] downloads_view(list.push(download)) == downloads_view(list).push(download@),
{
    assert(downloads_view(list.push(download)) =~= downloads_view(list).push(download@));
}

/// The first download in `format`, at or after `from`.
pub open spec fn first_in_format(
    downloads: Seq<DownloadView>,
    format: FormatView,
    from: int,
) -> Option<int>
    decreases downloads.len() - from,
{
    if from < 0 || from >= downloads.len() {
        None
    } else if downloads[from].format == format {
        Some(from)
    } else {
        first_in_format(downloads, format, from + 1)
    }
}

/// The download to take: the first one in the earliest wanted format that is
/// offered at all, else the first download.
pub open spec fn choice(downloads: Seq<DownloadView>, prefer: Seq<FormatView>) -> Option<int>
    decreases prefer.len(),
{
    if prefer.len() == 0 {
        if downloads.len() == 0 {
            None
        } else {
            Some(0)
        }
    } else {
        match first_in_format(downloads, prefer.first(), 0) {
            Some(i) => Some(i),
            None => choice(downloads, prefer.drop_first()),
        }
    }
}

/// The book offers a download in `format`.
pub open spec fn offers(downloads: Seq<DownloadView>, format: FormatView) -> bool {
    exists|j: int| 0 <= j < downloads.len() && (#[trigger] downloads[j]).format == format
}

proof fn lemma_first_in_format(downloads: Seq<DownloadView>, format: FormatView, from: int)
    requires
        0 <= from,
    ensures
        first_in_format(downloads, format, from) matches Some(i) ==> from <= i < downloads.len()
            && downloads[i].format == format,
        first_in_format(downloads, format, from) is None ==> forall|j: int|
            from <= j < downloads.len() ==> (#[trigger] downloads[j]).format != format,
    decreases downloads.len() - from,
{
    if from < downloads.len() {
        lemma_first_in_format(downloads, format, from + 1);
    }
}

/// A book with any download has one to take; and where it is offered in a wanted
/// format, the download to take is in that format or in one that is wanted more.
pub proof fn law_choice_is_the_best(
    downloads: Seq<DownloadView>,
    prefer: Seq<FormatView>,
    k: int,
)
    ensures
        choice(downloads, prefer) is None <==> downloads.len() == 0,
        choice(downloads, prefer) matches Some(i) ==> 0 <= i < downloads.len(),
        0 <= k < prefer.len() && offers(downloads, prefer[k]) ==> exists|m: int|
            0 <= m <= k && #[trigger] prefer[m] == downloads[choice(downloads, prefer)->0].format,
    decreases prefer.len(),
{
    if prefer.len() > 0 {
        let rest = prefer.drop_first();
        lemma_first_in_format(downloads, prefer.first(), 0);
        law_choice_is_the_best(downloads, rest, k - 1);
        match first_in_format(downloads, prefer.first(), 0) {
            Some(i) => {
                assert(prefer[0] == downloads[i].format);
            },
            None => {
                if 0 < k < prefer.len() && offers(downloads, prefer[k]) {
                    assert(rest[k - 1] == prefer[k]);
                    let m = choose|m: int|
                        0 <= m <= k - 1 && #[trigger] rest[m] == downloads[choice(
                            downloads,
                            rest,
                        )->0].format;
                    assert(prefer[m + 1] == rest[m]);
                }
            },
        }
    }
}

/// The formats of a list.
pub open spec fn formats_view(list: Seq<Format>) -> Seq<FormatView> {
    Seq::new(list.len(), |i: int| list[i]@)
}

impl BookView {
    /// The authors on one line.
    pub open spec fn author_line(self) -> Seq<char> {
        if self.authors.len() == 0 {
            "Unknown"@
        } else {
            words::joined(self.authors, ", "@)
        }
    }

    /// The names of the formats on offer.
    pub open spec fn formats(self) -> Seq<Seq<char>> {
        Seq::new(self.downloads.len(), |i: int| self.downloads[i].format.label())
    }
}

impl Clone for Book {
    fn clone(&self) -> (r: Book)
        ensures
            r@ == self@,
    {
        let mut downloads: Vec<Download> = Vec::new();
        let mut i: usize = 0;
        while i < self.downloads.len()
            invariant
                i <= self.downloads@.len(),
                downloads@.len() == i,
                forall|k: int| 0 <= k < i ==> #[trigger] downloads@[k]@ == self.downloads@[k]@,
            decreases self.downloads@.len() - i,
        {
            downloads.push(self.downloads[i].clone());
            i += 1;
        }
        assert(downloads_view(downloads@) =~= downloads_view(self.downloads@));
        Book {
            source: self.source,
            id: self.id.clone(),
            title: self.title.clone(),
            authors: text::copy_texts(&self.authors),
            language: text::copy_text(&self.language),
            downloads,
        }
    }
}

impl Book {
    /// The authors on one line.
    pub fn author_line(&self) -> (r: String)
        ensures
            r@ == self@.author_line(),
    {
        if self.authors.len() == 0 {
            "Unknown".to_owned()
        } else {
            words::join(&self.authors, ", ")
        }
    }

    fn first_download_in(&self, format: &Format) -> (r: Option<usize>)
        ensures
            match r {
                Some(i) => first_in_format(self@.downloads, format@, 0) == Some(i as int) && i
                    < self.downloads@.len(),
                None => first_in_format(self@.downloads, format@, 0) is None,
            },
    {
        let mut i: usize = 0;
        while i < self.downloads.len()
            invariant
                i <= self.downloads@.len(),
                first_in_format(self@.downloads, format@, 0) == first_in_format(
                    self@.downloads,
                    format@,
                    i as int,
                ),
            decreases self.downloads@.len() - i,
        {
            assert(self@.downloads[i as int] == self.downloads@[i as int]@);
            if self.downloads[i].format.is(format) {
                return Some(i);
            }
            i += 1;
        }
        None
    }

    /// First available download matching the caller's format preference order.
    pub fn preferred(&self, prefer: &[Format]) -> (r: Option<&Download>)
        ensures
            r == (match choice(self@.downloads, formats_view(prefer@)) {
                Some(i) => Some(&self.downloads@[i]),
                None => None,
            }),
    {
        let ghost wanted = formats_view(prefer@);
        let mut i: usize = 0;
        assert(wanted.skip(0) =~= wanted);
        while i < prefer.len()
            invariant
                i <= prefer@.len(),
                wanted == formats_view(prefer@),
                choice(self@.downloads, wanted) == choice(self@.downloads, wanted.skip(i as int)),
            decreases prefer@.len() - i,
        {
            assert(wanted.skip(i as int).first() == prefer@[i as int]@);
            assert(wanted.skip(i as int).drop_first() =~= wanted.skip(i + 1));
            if let Some(at) = self.first_download_in(&prefer[i]) {
                return Some(&self.downloads[at]);
            }
            i += 1;
        }
        if self.downloads.len() == 0 {
            None
        } else {
            Some(&self.downloads[0])
        }
    }

    /// The names of the formats on offer.
    pub fn formats(&self) -> (r: Vec<String>)
        ensures
            text::texts(r@) == self@.formats(),
    {
        let mut out: Vec<String> = Vec::new();
        let mut i: usize = 0;
        while i < self.downloads.len()
            invariant
                i <= self.downloads@.len(),
                text::texts(out@) == self@.formats().take(i as int),
            decreases self.downloads@.len() - i,
        {
            out.push(self.downloads[i].format.label());
            assert(text::texts(out@) =~= self@.formats().take(i + 1));
            i += 1;
        }
        assert(self@.formats().take(i as int) =~= self@.formats());
        out
    }
}

/// One page of a search.
#[derive(Debug)]
pub struct SearchResults {
    pub books: Vec<Book>,
    pub total_pages: Option<usize>,
}

/// A search to be sent to a catalog.
#[derive(Debug)]
pub struct Request {
    pub url: &'static str,
    pub params: Vec<(&'static str, String)>,
}

/// The mathematical counterpart of [`Request`].
#[verifier::ext_equal]
pub struct RequestView {
    pub url: Seq<char>,
    pub params: Seq<(Seq<char>, Seq<char>)>,
}

impl View for Request {
    type V = RequestView;

    open spec fn view(&self) -> RequestView {
        RequestView {
            url: self.url@,
            params: Seq::new(
                self.params@.len(),
                |i: int| (self.params@[i].0@, self.params@[i].1@),
            ),
        }
    }
}

/// A page number as catalogs count: the first page is page one.
pub open spec fn page_number(page: usize) -> nat {
    if page < 1 {
        1
    } else {
        page as nat
    }
}

/// The number of `page`, counted from one.
pub fn counted_page(page: usize) -> (r: usize)
    ensures
        r == page_number(page),
{
    if page < 1 {
        1
    } else {
        page
    }
}

/// The number of `page` in decimal digits, counted from one.
pub fn page_text(page: usize) -> (r: String)
    ensures
        r@ == number::decimal(page_number(page)),
{
    number::to_decimal(counted_page(page) as u64)
}

/// A catalog that can be searched.
pub trait Source {
    /// The name that the books of the source carry.
    spec fn tag(&self) -> Seq<char>;

    fn name(&self) -> (r: &'static str)
        ensures
            r@ == self.tag(),
    ;
}

/// A source that the app searches.
#[derive(Debug, Clone, Copy, PartialEq, Eq, Structural)]
pub enum Catalog {
    Gutendex,
    Libgen,
    EBiblioteka,
    AnnasArchive,
}

impl Source for Catalog {
    open spec fn tag(&self) -> Seq<char> {
        match self {
            Catalog::Gutendex => "gutenberg"@,
            Catalog::Libgen => "libgen"@,
            Catalog::EBiblioteka => "e-biblioteka"@,
            Catalog::AnnasArchive => "annas-archive"@,
        }
    }

    fn name(&self) -> (r: &'static str) {
        match self {
            Catalog::Gutendex => "gutenberg",
            Catalog::Libgen => "libgen",
            Catalog::EBiblioteka => "e-biblioteka",
            Catalog::AnnasArchive => "annas-archive",
        }
    }
}

/// Every source we know how to search.
pub fn all() -> (r: Vec<Catalog>)
    ensures
        r@ == seq![
            Catalog::Gutendex,
            Catalog::Libgen,
            Catalog::EBiblioteka,
            Catalog::AnnasArchive,
        ],
{
    let mut out: Vec<Catalog> = Vec::new();
    out.push(Catalog::Gutendex);
    out.push(Catalog::Libgen);
    out.push(Catalog::EBiblioteka);
    out.push(Catalog::AnnasArchive);
    assert(out@ =~= seq![
        Catalog::Gutendex,
        Catalog::Libgen,
        Catalog::EBiblioteka,
        Catalog::AnnasArchive,
    ]);
    out
}

/// A source that the app searches has the name under which it lists its books.
pub proof fn law_catalogs_keep_their_names()
    ensures
        Catalog::Gutendex.tag() == gutendex::Gutendex.tag(),
        Catalog::Libgen.tag() == libgen::Libgen.tag(),
        Catalog::EBiblioteka.tag() == e_biblioteka::EBiblioteka.tag(),
        Catalog::AnnasArchive.tag() == annas_archive::AnnasArchive.tag(),
{
}

/// A source is known by its name.
pub proof fn law_names_are_distinct(a: Catalog, b: Catalog)
    requires
        a.tag() == b.tag(),
    ensures
        a == b,
{
    reveal_strlit("gutenberg");
    reveal_strlit("libgen");
    reveal_strlit("e-biblioteka");
    reveal_strlit("annas-archive");
    assert("gutenberg"@.len() == 9);
    assert("libgen"@.len() == 6);
    assert("e-biblioteka"@.len() == 12);
    assert("annas-archive"@.len() == 13);
    assert(a.tag().len() == b.tag().len());
}

// ---- books with a size in words -------------------------------------------------

/// A size as a catalog prints it: an amount in decimal notation, to be
/// multiplied.
#[derive(Debug)]
pub struct Amount {
    pub digits: String,
    pub multiplier: u64,
}

/// The mathematical counterpart of [`Amount`].
pub struct AmountView {
    pub digits: Seq<char>,
    pub multiplier: u64,
}

impl View for Amount {
    type V = AmountView;

    open spec fn view(&self) -> AmountView {
        AmountView { digits: self.digits@, multiplier: self.multiplier }
    }
}

/// The amount in an optional one.
pub open spec fn amount_in(value: Option<Amount>) -> Option<AmountView> {
    match value {
        Some(amount) => Some(amount@),
        None => None,
    }
}

/// A book whose size is still an amount in words.
#[derive(Debug)]
pub struct Draft {
    pub book: Book,
    pub amount: Option<Amount>,
}

/// The mathematical counterpart of [`Draft`].
pub struct DraftView {
    pub book: BookView,
    pub amount: Option<AmountView>,
}

impl View for Draft {
    type V = DraftView;

    open spec fn view(&self) -> DraftView {
        DraftView { book: self.book@, amount: amount_in(self.amount) }
    }
}

/// What a list of drafts holds.
pub open spec fn drafts_view(list: Seq<Draft>) -> Seq<DraftView> {
    Seq::new(list.len(), |i: int| list[i]@)
}

pub broadcast proof fn lemma_drafts_push(list: Seq<Draft>, draft: Draft)
    ensures
        #[trigger] drafts_view(list.push(draft)) == drafts_view(list).push(draft@),
{
    assert(drafts_view(list.push(draft)) =~= drafts_view(list).push(draft@));
}

/// `list` holds a draft of the book `id`.
pub open spec fn has_id(list: Seq<DraftView>, id: Seq<char>) -> bool {
    exists|i: int| 0 <= i < list.len() && (#[trigger] list[i]).book.id == id
}

/// Whether `list` holds a draft of the book `id`.
pub fn drafted(list: &Vec<Draft>, id: &str) -> (r: bool)
    ensures
        r == has_id(drafts_view(list@), id@),
{
    let mut i: usize = 0;
    while i < list.len()
        invariant
            i <= list@.len(),
            forall|k: int|
                0 <= k < i ==> (#[trigger] drafts_view(list@)[k]).book.id != id@,
        decreases list@.len() - i,
    {
        if text::same(list[i].book.id.as_str(), id) {
            assert(drafts_view(list@)[i as int].book.id == id@);
            return true;
        }
        i += 1;
    }
    false
}

/// One page of a search whose sizes are still amounts in words.
#[derive(Debug)]
pub struct Listing {
    pub drafts: Vec<Draft>,
    pub total_pages: Option<usize>,
}

/// The finished book: the size of its first download is `size` where the
/// catalog printed an amount at all.
pub open spec fn finished(draft: DraftView, size: Option<u64>) -> BookView {
    if draft.amount is Some && draft.book.downloads.len() > 0 {
        BookView {
            downloads: draft.book.downloads.update(
                0,
                DownloadView { size, ..draft.book.downloads[0] },
            ),
            ..draft.book
        }
    } else {
        draft.book
    }
}

impl Listing {
    /// The finished page, given the number that each amount stands for.
    pub fn finish(self, sizes: &Vec<Option<u64>>) -> (r: SearchResults)
        requires
            sizes@.len() == self.drafts@.len(),
        ensures
            r.total_pages == self.total_pages,
            books_view(r.books@) == Seq::new(
                self.drafts@.len(),
                |i: int| finished(self.drafts@[i]@, sizes@[i]),
            ),
    {
        let ghost all = self.drafts@;
        let total_pages = self.total_pages;
        let mut drafts = self.drafts;
        let mut books: Vec<Book> = Vec::new();
        let mut i: usize = 0;
        while i < sizes.len()
            invariant
                i <= sizes@.len(),
                sizes@.len() == all.len(),
                drafts@ == all.skip(i as int),
                books@.len() == i,
                forall|k: int|
                    0 <= k < i ==> #[trigger] books@[k]@ == finished(all[k]@, sizes@[k]),
            decreases sizes@.len() - i,
        {
            let draft = drafts.remove(0);
            assert(draft == all[i as int]);
            assert(drafts@ =~= all.skip(i + 1));
            let mut book = draft.book;
            let ghost before = book;
            if draft.amount.is_some() && book.downloads.len() > 0 {
                book.downloads[0].size = sizes[i];
            }
            assert(book@.downloads =~= finished(all[i as int]@, sizes@[i as int]).downloads);
            assert(book@ == finished(all[i as int]@, sizes@[i as int]));
            books.push(book);
            i += 1;
        }
        assert(books_view(books@) =~= Seq::new(
            all.len(),
            |i: int| finished(all[i]@, sizes@[i]),
        ));
        SearchResults { books, total_pages }
    }
}

// ---- laws -------------------------------------------------------------------------

/// The download to take is the first one in its format, or the first of all.
pub proof fn law_choice_is_the_first(downloads: Seq<DownloadView>, prefer: Seq<FormatView>, j: int)
    requires
        choice(downloads, prefer) is Some,
        0 <= j < choice(downloads, prefer)->0,
    ensures
        downloads[j].format != downloads[choice(downloads, prefer)->0].format,
    decreases prefer.len(),
{
    if prefer.len() > 0 {
        lemma_first_is_first(downloads, prefer.first(), 0);
        lemma_first_in_format(downloads, prefer.first(), 0);
        if first_in_format(downloads, prefer.first(), 0) is None {
            law_choice_is_the_first(downloads, prefer.drop_first(), j);
        }
    }
}

proof fn lemma_first_is_first(downloads: Seq<DownloadView>, format: FormatView, from: int)
    requires
        0 <= from,
    ensures
        first_in_format(downloads, format, from) matches Some(i) ==> forall|j: int|
            from <= j < i ==> (#[trigger] downloads[j]).format != format,
    decreases downloads.len() - from,
{
    if from < downloads.len() && downloads[from].format != format {
        lemma_first_is_first(downloads, format, from + 1);
    }
}

/// Of the wanted formats, the one that is named first wins: what comes out is in
/// the first wanted format that the book is offered in, and the book's first
/// download where it is offered in none of them.
pub proof fn law_earlier_wishes_win(book: &Book, prefer: &[Format], r: Option<&Download>, k: int)
    requires
        call_ensures(Book::preferred, (book, prefer), r),
    ensures
        r is None <==> book.downloads@.len() == 0,
        r is Some ==> book.downloads@.contains(*r->0),
        r is Some && 0 <= k < prefer@.len() && (exists|j: int|
            0 <= j < book.downloads@.len() && (#[trigger] book.downloads@[j]).format@
                == prefer@[k]@) && (forall|m: int, j: int|
            0 <= m < k && 0 <= j < book.downloads@.len() ==> (
            #[trigger] book.downloads@[j]).format@ != (#[trigger] prefer@[m])@)
            ==> r->0.format@ == prefer@[k]@,
        r is Some && (forall|m: int, j: int|
            0 <= m < prefer@.len() && 0 <= j < book.downloads@.len() ==> (
            #[trigger] book.downloads@[j]).format@ != (#[trigger] prefer@[m])@) ==> *r->0
            == book.downloads@[0],
{
    let downloads = book@.downloads;
    let wanted = formats_view(prefer@);
    law_choice_is_the_best(downloads, wanted, k);
    if let Some(i) = choice(downloads, wanted) {
        assert(book.downloads@[i] == *r->0);
        assert(downloads[i] == book.downloads@[i]@);
        if 0 <= k < prefer@.len() && (exists|j: int|
            0 <= j < book.downloads@.len() && (#[trigger] book.downloads@[j]).format@
                == prefer@[k]@) {
            let j = choose|j: int|
                0 <= j < book.downloads@.len() && (#[trigger] book.downloads@[j]).format@
                    == prefer@[k]@;
            assert(downloads[j].format == wanted[k]);
            assert(offers(downloads, wanted[k]));
            let m = choose|m: int|
                0 <= m <= k && #[trigger] wanted[m] == downloads[choice(
                    downloads,
                    wanted,
                )->0].format;
            assert(prefer@[m]@ == wanted[m]);
            assert(book.downloads@[i].format@ == prefer@[m]@);
        }
        if forall|m: int, j: int|
            0 <= m < prefer@.len() && 0 <= j < book.downloads@.len() ==> (
            #[trigger] book.downloads@[j]).format@ != (#[trigger] prefer@[m])@ {
            assert forall|m: int| 0 <= m < wanted.len() implies !offers(
                downloads,
                #[trigger] wanted[m],
            ) by {
                if offers(downloads, wanted[m]) {
                    let j = choose|j: int|
                        0 <= j < downloads.len() && (#[trigger] downloads[j]).format
                            == wanted[m];
                    assert(book.downloads@[j].format@ == prefer@[m]@);
                }
            }
            lemma_no_wish(downloads, wanted);
        }
    }
}

pub proof fn lemma_no_wish(downloads: Seq<DownloadView>, wanted: Seq<FormatView>)
    requires
        downloads.len() > 0,
        forall|m: int| 0 <= m < wanted.len() ==> !offers(downloads, #[trigger] wanted[m]),
    ensures
        choice(downloads, wanted) == Some(0int),
    decreases wanted.len(),
{
    if wanted.len() > 0 {
        let rest = wanted.drop_first();
        lemma_first_in_format(downloads, wanted.first(), 0);
        assert(!offers(downloads, wanted[0]));
        assert forall|m: int| 0 <= m < rest.len() implies !offers(
            downloads,
            #[trigger] rest[m],
        ) by {
            assert(rest[m] == wanted[m + 1]);
        }
        lemma_no_wish(downloads, rest);
    }
}

/// The letters that a file's name ends in tell its format.
pub proof fn law_extensions(format: &Format, r: &str, label: String)
    requires
        call_ensures(Format::extension, (format,), r),
        call_ensures(Format::label, (format,), label),
    ensures
        *format == Format::Epub ==> r@ == seq!['e', 'p', 'u', 'b'],
        *format == Format::Pdf ==> r@ == seq!['p', 'd', 'f'],
        *format == Format::Txt ==> r@ == seq!['t', 'x', 't'],
        *format == Format::Html ==> r@ == seq!['h', 't', 'm', 'l'],
        *format == Format::Mobi ==> r@ == seq!['m', 'o', 'b', 'i'],
        *format == Format::Azw3 ==> r@ == seq!['a', 'z', 'w', '3'],
        *format == Format::Djvu ==> r@ == seq!['d', 'j', 'v', 'u'],
        *format == Format::Fb2 ==> r@ == seq!['f', 'b', '2'],
        *format == Format::Torrent ==> r@ == seq!['t', 'o', 'r', 'r', 'e', 'n', 't'],
        *format is Other ==> r@ == seq!['b', 'i', 'n'],
        *format matches Format::Other(name) ==> label@ == name@,
        !(*format is Other) ==> label@ == r@,
{
    lemma_extension_texts();
}

proof fn lemma_extension_texts()
    ensures
        "epub"@ == seq!['e', 'p', 'u', 'b'],
        "pdf"@ == seq!['p', 'd', 'f'],
        "txt"@ == seq!['t', 'x', 't'],
        "html"@ == seq!['h', 't', 'm', 'l'],
        "htm"@ == seq!['h', 't', 'm'],
        "mobi"@ == seq!['m', 'o', 'b', 'i'],
        "azw3"@ == seq!['a', 'z', 'w', '3'],
        "djvu"@ == seq!['d', 'j', 'v', 'u'],
        "fb2"@ == seq!['f', 'b', '2'],
        "torrent"@ == seq!['t', 'o', 'r', 'r', 'e', 'n', 't'],
        "bin"@ == seq!['b', 'i', 'n'],
{
    reveal_strlit("epub");
    reveal_strlit("pdf");
    reveal_strlit("txt");
    reveal_strlit("html");
    reveal_strlit("htm");
    reveal_strlit("mobi");
    reveal_strlit("azw3");
    reveal_strlit("djvu");
    reveal_strlit("fb2");
    reveal_strlit("torrent");
    reveal_strlit("bin");
    assert("epub"@ =~= seq!['e', 'p', 'u', 'b']);
    assert("pdf"@ =~= seq!['p', 'd', 'f']);
    assert("txt"@ =~= seq!['t', 'x', 't']);
    assert("html"@ =~= seq!['h', 't', 'm', 'l']);
    assert("htm"@ =~= seq!['h', 't', 'm']);
    assert("mobi"@ =~= seq!['m', 'o', 'b', 'i']);
    assert("azw3"@ =~= seq!['a', 'z', 'w', '3']);
    assert("djvu"@ =~= seq!['d', 'j', 'v', 'u']);
    assert("fb2"@ =~= seq!['f', 'b', '2']);
    assert("torrent"@ =~= seq!['t', 'o', 'r', 'r', 'e', 'n', 't']);
    assert("bin"@ =~= seq!['b', 'i', 'n']);
}

/// A format is read from the extension that is written for it, and `htm` is
/// read as `html` is. Nothing but an ebook extension is read.
pub proof fn law_formats_are_read_back(format: &Format, ext: &str, r: Option<Format>)
    requires
        call_ensures(Format::from_extension, (ext,), r),
    ensures
        ext@ == format@.extension() && !(*format is Torrent) && !(*format is Other) ==> r is Some
            && r->0@ == format@,
        ext@ == seq!['h', 't', 'm'] ==> r is Some && r->0@ == FormatView::Html,
        r is Some ==> ext@ == r->0@.extension() || ext@ == seq!['h', 't', 'm'] && r->0@
            == FormatView::Html,
        r is Some ==> !(r->0@ is Torrent) && !(r->0@ is Other),
{
    lemma_extension_texts();
    assert(ext@ == format@.extension() ==> ext@.len() == format@.extension().len());
    assert("epub"@[0] == 'e' && "pdf"@[0] == 'p' && "txt"@[0] == 't' && "html"@[0] == 'h');
    assert("mobi"@[0] == 'm' && "azw3"@[0] == 'a' && "djvu"@[0] == 'd' && "fb2"@[0] == 'f');
    assert("htm"@.len() == 3 && "html"@.len() == 4 && "htm"@[0] == 'h');
}

/// What servers call the formats. Blanks, and what follows a semicolon, do not
/// count.
pub proof fn law_media_types(mime: &str, r: Format, head: Seq<char>, kind: Seq<char>)
    requires
        call_ensures(Format::from_mime, (mime,), r),
        head == words::pieces(mime@, seq![';']).first(),
        kind == text::trimmed(head),
    ensures
        r@ == FormatView::Epub <==> kind == "application/epub+zip"@,
        r@ == FormatView::Pdf <==> kind == "application/pdf"@,
        r@ == FormatView::Txt <==> kind == "text/plain"@,
        r@ == FormatView::Html <==> kind == "text/html"@,
        r@ == FormatView::Mobi <==> kind == "application/x-mobipocket-ebook"@,
        r@ == FormatView::Torrent <==> kind == "application/x-bittorrent"@,
        r@ matches FormatView::Other(name) ==> name == kind,
{
    reveal_strlit("application/epub+zip");
    reveal_strlit("application/pdf");
    reveal_strlit("text/plain");
    reveal_strlit("text/html");
    reveal_strlit("application/x-mobipocket-ebook");
    reveal_strlit("application/x-bittorrent");
    assert("application/epub+zip"@.len() == 20);
    assert("application/pdf"@.len() == 15);
    assert("text/plain"@.len() == 10);
    assert("text/html"@.len() == 9);
    assert("application/x-mobipocket-ebook"@.len() == 30);
    assert("application/x-bittorrent"@.len() == 24);
}

/// The authors stand on one line in their order, with a comma and a blank
/// between them; a book without authors has an unknown one.
pub proof fn law_author_line(book: &Book, r: String)
    requires
        call_ensures(Book::author_line, (book,), r),
    ensures
        book.authors@.len() == 0 ==> r@ == "Unknown"@,
        book.authors@.len() == 1 ==> r@ == book.authors@[0]@,
        book.authors@.len() == 2 ==> r@ == book.authors@[0]@ + ", "@ + book.authors@[1]@,
        book.authors@.len() > 0 ==> r@ == words::joined(text::texts(book.authors@), ", "@),
{
    reveal_with_fuel(words::joined, 3);
}

/// The formats are named in the order of the downloads.
pub proof fn law_formats_are_named(book: &Book, r: Vec<String>, i: int)
    requires
        call_ensures(Book::formats, (book,), r),
        0 <= i < book.downloads@.len(),
    ensures
        r@.len() == book.downloads@.len(),
        r@[i]@ == book.downloads@[i].format@.label(),
{
    assert(text::texts(r@).len() == r@.len());
    assert(text::texts(r@)[i] == r@[i]@);
    assert(book@.downloads[i] == book.downloads@[i]@);
}

/// Pages are counted from one; the page before the first is the first.
pub proof fn law_pages_are_counted_from_one(page: usize, r: usize, told: String)
    requires
        call_ensures(counted_page, (page,), r),
        call_ensures(page_text, (page,), told),
    ensures
        page >= 1 ==> r == page,
        page == 0 ==> r == 1,
        told@ == number::decimal(r as nat),
{
}

/// The four catalogs, each once, in the order in which they are offered, under
/// the names that their books carry.
pub proof fn law_catalogs(r: Vec<Catalog>)
    requires
        call_ensures(all, (), r),
    ensures
        r@.len() == 4,
        r@[0].tag() == "gutenberg"@,
        r@[1].tag() == "libgen"@,
        r@[2].tag() == "e-biblioteka"@,
        r@[3].tag() == "annas-archive"@,
        r@[0] == Catalog::Gutendex,
        r@[1] == Catalog::Libgen,
        r@[2] == Catalog::EBiblioteka,
        r@[3] == Catalog::AnnasArchive,
{
}

/// Once the sizes are known, each goes to the first download of its own book;
/// nothing else of the books changes, and neither does their order.
pub proof fn law_sizes_go_to_their_books(
    listing: Listing,
    sizes: &Vec<Option<u64>>,
    r: SearchResults,
    i: int,
)
    requires
        sizes@.len() == listing.drafts@.len(),
        call_ensures(Listing::finish, (listing, sizes), r),
        0 <= i < listing.drafts@.len(),
    ensures
        r.total_pages == listing.total_pages,
        r.books@.len() == listing.drafts@.len(),
        ({
            let before = listing.drafts@[i].book@;
            let after = r.books@[i]@;
            &&& after == BookView { downloads: after.downloads, ..before }
            &&& after.downloads.len() == before.downloads.len()
            &&& forall|k: int|
                0 < k < before.downloads.len() ==> #[trigger] after.downloads[k]
                    == before.downloads[k]
            &&& before.downloads.len() > 0 ==> after.downloads[0].url == before.downloads[0].url
                && after.downloads[0].format == before.downloads[0].format
            &&& before.downloads.len() > 0 && listing.drafts@[i].amount is Some
                ==> after.downloads[0].size == sizes@[i]
            &&& listing.drafts@[i].amount is None ==> after == before
        }),
{
    assert(books_view(r.books@).len() == r.books@.len());
    assert(books_view(r.books@)[i] == r.books@[i]@);
}

} // verus!
