use tui_book_search::html::{
    attach_all, fits, Ancestor, Cell, FileLink, Frame, FramedLink, Listed, ResultLink,
};
use tui_book_search::source::annas_archive;
use tui_book_search::source::e_biblioteka;
use tui_book_search::source::gutendex;
use tui_book_search::source::html_catalog;
use tui_book_search::source::libgen;
use tui_book_search::source::{
    counted_page, all, Book, Catalog, Download, Format, Listing, SearchResults, Source,
};

fn size_of(listing: &Listing, i: usize) -> Option<u64> {
    let amount = listing.drafts[i].amount.as_ref()?;
    let number: f64 = amount.digits.parse().ok()?;
    Some((number * amount.multiplier as f64) as u64)
}

fn finish(listing: Listing) -> SearchResults {
    let sizes: Vec<Option<u64>> = (0..listing.drafts.len())
        .map(|i| size_of(&listing, i))
        .collect();
    listing.finish(&sizes)
}

fn book(title: &str, authors: &[&str], downloads: Vec<Download>) -> Book {
    Book {
        source: "gutenberg",
        id: "11".to_string(),
        title: title.to_string(),
        authors: authors.iter().map(|name| name.to_string()).collect(),
        language: None,
        downloads,
    }
}

fn download(format: Format, url: &str) -> Download {
    Download {
        format,
        url: url.to_string(),
        size: None,
    }
}

// ---- books ---------------------------------------------------------------------

#[test]
fn formats_know_their_extensions() {
    let pairs = [
        (Format::Epub, "epub"),
        (Format::Pdf, "pdf"),
        (Format::Txt, "txt"),
        (Format::Html, "html"),
        (Format::Mobi, "mobi"),
        (Format::Azw3, "azw3"),
        (Format::Djvu, "djvu"),
        (Format::Fb2, "fb2"),
        (Format::Torrent, "torrent"),
    ];
    for (format, extension) in pairs {
        assert_eq!(format.extension(), extension);
        assert_eq!(format.label(), extension);
    }
    for extension in ["epub", "pdf", "mobi", "azw3", "djvu", "fb2"] {
        let format = Format::from_extension(extension).unwrap();
        assert_eq!(format.extension(), extension);
    }
    assert_eq!(Format::from_extension("bin"), None);
    let other = Format::Other("image/jpeg".to_string());
    assert_eq!(other.extension(), "bin");
    assert_eq!(other.label(), "image/jpeg");
}

#[test]
fn media_types_become_formats() {
    assert_eq!(Format::from_mime("application/epub+zip"), Format::Epub);
    assert_eq!(Format::from_mime("text/plain; charset=us-ascii"), Format::Txt);
    assert_eq!(Format::from_mime(" text/html ;x"), Format::Html);
    assert_eq!(Format::from_mime("application/pdf"), Format::Pdf);
    assert_eq!(Format::from_mime("application/x-mobipocket-ebook"), Format::Mobi);
    assert_eq!(Format::from_mime("application/x-bittorrent"), Format::Torrent);
    assert_eq!(
        Format::from_mime("image/jpeg; q=1"),
        Format::Other("image/jpeg".to_string())
    );
    assert_eq!(Format::from_mime(""), Format::Other(String::new()));
}

#[test]
fn author_line_joins_names() {
    assert_eq!(book("x", &[], Vec::new()).author_line(), "Unknown");
    assert_eq!(book("x", &["A"], Vec::new()).author_line(), "A");
    assert_eq!(book("x", &["A", "B"], Vec::new()).author_line(), "A, B");
}

#[test]
fn preferred_follows_the_order_of_preference() {
    let prefer = [Format::Epub, Format::Pdf, Format::Txt];
    let some = book(
        "x",
        &[],
        vec![
            download(Format::Mobi, "m"),
            download(Format::Pdf, "p1"),
            download(Format::Pdf, "p2"),
        ],
    );
    assert_eq!(some.preferred(&prefer).unwrap().url, "p1");
    let none = book("x", &[], vec![download(Format::Mobi, "m")]);
    assert_eq!(none.preferred(&prefer).unwrap().url, "m");
    assert!(book("x", &[], Vec::new()).preferred(&prefer).is_none());
    assert_eq!(some.formats(), vec!["mobi", "pdf", "pdf"]);
}

#[test]
fn catalogs_keep_their_names() {
    let names: Vec<&str> = all().iter().map(|source| source.name()).collect();
    assert_eq!(
        names,
        vec!["gutenberg", "libgen", "e-biblioteka", "annas-archive"]
    );
    assert_eq!(gutendex::Gutendex.name(), Catalog::Gutendex.name());
    assert_eq!(libgen::Libgen.name(), Catalog::Libgen.name());
    assert_eq!(e_biblioteka::EBiblioteka.name(), Catalog::EBiblioteka.name());
    assert_eq!(annas_archive::AnnasArchive.name(), Catalog::AnnasArchive.name());
    assert_eq!(html_catalog::HtmlCatalog.name(), "html-catalog");
}

// ---- Gutendex ------------------------------------------------------------------

#[test]
fn keeps_languages_and_formats() {
    let book = gutendex::Item {
        id: 11,
        title: "Alice".to_string(),
        authors: vec![gutendex::Author {
            name: "Lewis Carroll".to_string(),
        }],
        languages: vec!["en".to_string(), "fr".to_string()],
        formats: vec![
            (
                "application/epub+zip".to_string(),
                "https://example.test/a.epub".to_string(),
            ),
            (
                "image/jpeg".to_string(),
                "https://example.test/a.jpg".to_string(),
            ),
        ],
    }
    .into_book();

    assert_eq!(book.language.as_deref(), Some("English, French"));
    assert_eq!(book.downloads.len(), 1);
    assert_eq!(book.downloads[0].format, Format::Epub);
    assert_eq!(book.source, "gutenberg");
    assert_eq!(book.id, "11");
    assert_eq!(book.authors, vec!["Lewis Carroll"]);
}

#[test]
fn preserves_unknown_language_codes() {
    assert_eq!(
        gutendex::languages(&vec!["eo".to_string()]).as_deref(),
        Some("eo")
    );
    assert_eq!(gutendex::languages(&Vec::new()), None);
}

#[test]
fn language_names_are_english() {
    let pairs = [
        ("en", "English"),
        ("fr", "French"),
        ("de", "German"),
        ("es", "Spanish"),
        ("it", "Italian"),
        ("pt", "Portuguese"),
        ("nl", "Dutch"),
        ("ru", "Russian"),
        ("pl", "Polish"),
        ("cs", "Czech"),
        ("sr", "Serbian"),
        ("hr", "Croatian"),
        ("bs", "Bosnian"),
        ("zh", "Chinese"),
        ("ja", "Japanese"),
        ("la", "Latin"),
        ("el", "Greek"),
        ("fi", "Finnish"),
        ("sv", "Swedish"),
        ("da", "Danish"),
        ("no", "Norwegian"),
        ("hu", "Hungarian"),
        ("ar", "Arabic"),
        ("he", "Hebrew"),
        ("EN", "EN"),
    ];
    for (code, name) in pairs {
        assert_eq!(gutendex::language_name(code), name);
    }
}

fn item(formats: &[(&str, &str)]) -> gutendex::Item {
    gutendex::Item {
        id: 5,
        title: "T".to_string(),
        authors: Vec::new(),
        languages: Vec::new(),
        formats: formats
            .iter()
            .map(|(mime, url)| (mime.to_string(), url.to_string()))
            .collect(),
    }
}

#[test]
fn formats_come_in_the_same_order_whatever_the_reply() {
    let forward = item(&[
        ("text/plain; charset=utf-8", "t"),
        ("application/epub+zip", "e"),
        ("text/html", "h"),
        ("application/zip", "z"),
        ("text/html", "h.zip"),
    ])
    .into_book();
    let backward = item(&[
        ("text/html", "h.zip"),
        ("application/zip", "z"),
        ("text/html", "h"),
        ("application/epub+zip", "e"),
        ("text/plain; charset=utf-8", "t"),
    ])
    .into_book();
    assert_eq!(forward.formats(), vec!["epub", "html", "txt"]);
    assert_eq!(backward.formats(), forward.formats());
}

#[test]
fn files_of_one_format_come_in_the_order_of_their_addresses() {
    let pairs = [
        ("text/plain; charset=utf-8", "https://example.test/11-0.txt"),
        ("text/plain; charset=us-ascii", "https://example.test/11.txt"),
        ("application/epub+zip", "https://example.test/z.epub"),
    ];
    let mut reversed = pairs;
    reversed.reverse();
    let urls = |book: Book| -> Vec<String> {
        book.downloads.into_iter().map(|file| file.url).collect()
    };
    let expected = vec![
        "https://example.test/z.epub",
        "https://example.test/11-0.txt",
        "https://example.test/11.txt",
    ];
    assert_eq!(urls(item(&pairs).into_book()), expected);
    assert_eq!(urls(item(&reversed).into_book()), expected);
}

#[test]
fn gutendex_counts_its_pages() {
    for (count, pages) in [(0, 1), (1, 1), (32, 1), (33, 2), (64, 2), (65, 3)] {
        assert_eq!(gutendex::total_pages(count), pages);
        let results = gutendex::results(
            gutendex::SearchResponse {
                count,
                results: vec![item(&[]), item(&[]), item(&[])],
            },
            2,
        );
        assert_eq!(results.total_pages, Some(pages));
        assert_eq!(results.books.len(), 2);
    }
}

#[test]
fn pages_are_counted_from_one() {
    assert_eq!(counted_page(0), 1);
    assert_eq!(counted_page(1), 1);
    assert_eq!(counted_page(7), 7);
}

#[test]
fn requests_carry_query_and_page() {
    let request = gutendex::search_request("alice", 0);
    assert_eq!(request.url, "https://gutendex.com/books");
    assert_eq!(
        request.params,
        vec![("search", "alice".to_string()), ("page", "1".to_string())]
    );
    let request = e_biblioteka::search_request("x", 3, 500);
    assert_eq!(request.url, "https://e-biblioteka.org/wp-json/wp/v2/posts");
    assert_eq!(
        request.params,
        vec![
            ("search", "x".to_string()),
            ("page", "3".to_string()),
            ("per_page", "100".to_string())
        ]
    );
    assert_eq!(e_biblioteka::search_request("x", 1, 0).params[2].1, "1");
    assert_eq!(e_biblioteka::search_request("x", 1, 50).params[2].1, "50");
    let request = html_catalog::search_request("x");
    assert_eq!(request.params, vec![("q", "x".to_string())]);
    assert_eq!(
        annas_archive::search_url("a b&c", 0).as_deref(),
        Some("https://annas-archive.gl/search?q=a+b%26c&page=1")
    );
}

// ---- e-biblioteka --------------------------------------------------------------

#[test]
fn parses_ebook_links_and_ignores_other_files() {
    let posts = vec![e_biblioteka::Post {
        id: 573,
        title: e_biblioteka::Rendered {
            rendered: "J.K. &amp; Rowling".to_string(),
        },
        content: e_biblioteka::Rendered {
            rendered: r#"
                    <div class="wp-block-file">
                      <a href="http://e-biblioteka.org/uploads/Hari-Poter.pdf">Hari Poter</a>
                      <a href="http://e-biblioteka.org/uploads/Hari-Poter.pdf" download>Download</a>
                    </div>
                    <div class="wp-block-file"><a href="/uploads/archive.zip">Archive</a></div>
                "#
            .to_string(),
        },
    }];

    let books = e_biblioteka::parse_posts(&posts, 25);
    assert_eq!(books.len(), 1);
    assert_eq!(books[0].title, "Hari Poter");
    assert_eq!(books[0].authors, vec!["J.K. & Rowling"]);
    assert_eq!(books[0].language.as_deref(), Some(e_biblioteka::LANGUAGE));
    assert_eq!(books[0].downloads[0].format, Format::Pdf);
    assert_eq!(
        books[0].downloads[0].url,
        "https://e-biblioteka.org/uploads/Hari-Poter.pdf"
    );
    assert_eq!(books[0].id, "573-Hari-Poter");
}

#[test]
fn accepts_only_ebook_extensions() {
    assert_eq!(
        e_biblioteka::format_from_url("https://example.test/book.azw3"),
        Some(Format::Azw3)
    );
    assert_eq!(
        e_biblioteka::format_from_url("https://example.test/book.fb2?q=1"),
        Some(Format::Fb2)
    );
    assert_eq!(
        e_biblioteka::format_from_url("https://example.test/book.bin"),
        None
    );
    assert_eq!(
        e_biblioteka::format_from_url("https://example.test/book.zip"),
        None
    );
}

#[test]
fn drops_a_reported_tail_page_without_downloadable_books() {
    assert_eq!(
        e_biblioteka::effective_total_pages(Some(4), 3, false),
        Some(4)
    );
    assert_eq!(
        e_biblioteka::effective_total_pages(Some(4), 4, true),
        Some(3)
    );
    assert_eq!(e_biblioteka::effective_total_pages(None, 4, true), Some(3));
    assert_eq!(e_biblioteka::effective_total_pages(Some(0), 4, true), Some(1));
    assert_eq!(e_biblioteka::effective_total_pages(None, 1, true), None);
}

fn file(href: Option<&str>, text: &str) -> Vec<FileLink> {
    vec![FileLink {
        href: href.map(str::to_string),
        text: text.to_string(),
    }]
}

#[test]
fn file_blocks_become_books() {
    let author = Some("A. Uthor".to_string());
    let books = e_biblioteka::books_from_blocks(
        7,
        &author,
        &vec![
            file(Some("https://other.test/My_Book-1.EPUB?x=1"), "  "),
            file(None, "no link"),
            Vec::new(),
            file(Some("https://other.test/.pdf"), ""),
            file(Some("https://other.test/b.pdf"), " A   title "),
        ],
    );
    assert_eq!(books.len(), 2);
    assert_eq!(books[0].title, "My Book 1");
    assert_eq!(books[0].id, "7-My_Book-1");
    assert_eq!(books[0].downloads[0].format, Format::Epub);
    assert_eq!(books[1].title, "A title");
    assert_eq!(books[1].authors, vec!["A. Uthor"]);
}

#[test]
fn addresses_are_upgraded_once() {
    let once = e_biblioteka::upgrade_url("http://e-biblioteka.org/a.pdf");
    assert_eq!(once, "https://e-biblioteka.org/a.pdf");
    assert_eq!(e_biblioteka::upgrade_url(&once), once);
    assert_eq!(
        e_biblioteka::upgrade_url("http://elsewhere.test/a.pdf"),
        "http://elsewhere.test/a.pdf"
    );
    assert_eq!(e_biblioteka::id_from_url("https://x.test/a/b"), "book");
    assert_eq!(e_biblioteka::id_from_url("https://x.test/a/b.c.pdf#z"), "b.c");
    assert_eq!(
        e_biblioteka::title_from_url("https://x.test/a_b-c.pdf").as_deref(),
        Some("a b c")
    );
    assert_eq!(e_biblioteka::title_from_url("https://x.test/.pdf"), None);
}

#[test]
fn the_same_file_is_listed_once() {
    let post = |id: u64| e_biblioteka::Post {
        id,
        title: e_biblioteka::Rendered {
            rendered: "X".to_string(),
        },
        content: e_biblioteka::Rendered {
            rendered: r#"<div class="wp-block-file"><a href="https://x.test/a.pdf">A</a></div>
                <div class="wp-block-file"><a href="https://x.test/b.pdf">B</a></div>"#
                .to_string(),
        },
    };
    let posts = vec![post(1), post(2)];
    let books = e_biblioteka::parse_posts(&posts, 25);
    let ids: Vec<&str> = books.iter().map(|book| book.id.as_str()).collect();
    assert_eq!(ids, vec!["1-a", "1-b"]);
    assert_eq!(e_biblioteka::parse_posts(&posts, 1).len(), 1);
    assert_eq!(e_biblioteka::parse_posts(&posts, 0).len(), 0);
}

#[test]
fn header_names_the_pages() {
    assert_eq!(e_biblioteka::total_pages(None), None);
    assert_eq!(e_biblioteka::total_pages(Some("12".to_string())), Some(12));
    assert_eq!(e_biblioteka::total_pages(Some("0".to_string())), Some(1));
    assert_eq!(e_biblioteka::total_pages(Some("x".to_string())), None);
    let page = e_biblioteka::results(Some("4".to_string()), 4, Vec::new());
    assert_eq!(page.total_pages, Some(3));
    assert!(page.books.is_empty());
}

// ---- the HTML catalog ----------------------------------------------------------

const CATALOG: &str = r#"
        <html><body>
          <ol>
            <li class="book">
              <a class="title" href="/b/1">  A   Sample   Title </a>
              <span class="author">Some Author</span>
              <a class="download" href="/files/1.epub">get</a>
            </li>
            <li class="book">
              <a class="title" href="/b/2">Another Book</a>
              <span class="author">Second Author</span>
              <a class="download" href="https://cdn.example.org/2.pdf">get</a>
            </li>
            <li class="book"><span class="author">no title, skipped</span></li>
          </ol>
        </body></html>
    "#;

#[test]
fn parses_rows() {
    let books = html_catalog::parse(CATALOG, 10);
    assert_eq!(books.len(), 2, "the row without a title is skipped");

    assert_eq!(books[0].title, "A Sample Title", "whitespace collapsed");
    assert_eq!(books[0].authors, vec!["Some Author"]);
    assert_eq!(books[0].downloads[0].format, Format::Epub);
    assert_eq!(
        books[0].downloads[0].url,
        "https://example.org/files/1.epub"
    );

    assert_eq!(books[1].downloads[0].format, Format::Pdf);
    assert_eq!(
        books[1].downloads[0].url, "https://cdn.example.org/2.pdf",
        "absolute hrefs are left alone"
    );
}

#[test]
fn respects_limit() {
    assert_eq!(html_catalog::parse(CATALOG, 1).len(), 1);
}

#[test]
fn skipped_entries_count_toward_the_limit() {
    let listed = |title: &str, href: Option<&str>| Listed {
        titles: vec![title.to_string()],
        authors: Vec::new(),
        links: vec![href.map(str::to_string)],
    };
    let entries = vec![
        listed(" ", Some("/a.txt")),
        listed("No link", None),
        listed("A", Some("/a.xyz")),
    ];
    assert_eq!(html_catalog::books_from_entries(&entries, 2).len(), 0);
    let books = html_catalog::books_from_entries(&entries, 3);
    assert_eq!(books.len(), 1);
    assert_eq!(books[0].id, "a.xyz");
    assert_eq!(
        books[0].downloads[0].format,
        Format::Other("xyz".to_string())
    );
    assert_eq!(html_catalog::absolute("/x"), "https://example.org/x");
    assert_eq!(
        html_catalog::absolute(&html_catalog::absolute("/x")),
        "https://example.org/x"
    );
}

// ---- LibGen --------------------------------------------------------------------

const HASH: &str = "184c16eae281bf2ebea72eb6d7aa6f6d";

const FIXTURE: &str = r#"
      <table id="tablelibgen"><tbody>
        <tr>
          <td><b>A series</b><br><a href="edition.php?id=1">The Book <i>Second edition</i></a></td>
          <td>Jane Doe</td><td>Publisher</td><td>2024</td><td>English</td><td>200</td>
          <td>2.5 MB</td><td>epub</td>
          <td>
            <a href="/ads.php?md5=184c16eae281bf2ebea72eb6d7aa6f6d">1</a>
            <a href="https://example.test/md5/184c16eae281bf2ebea72eb6d7aa6f6d?r=x">2</a>
          </td>
        </tr>
        <tr>
          <td><a href="edition.php?id=2">Duplicate file</a></td>
          <td>Someone Else</td><td></td><td></td><td>French</td><td></td><td>3 MB</td><td>pdf</td>
          <td><a href="/md5/184C16EAE281BF2EBEA72EB6D7AA6F6D">mirror</a></td>
        </tr>
        <tr><td>Malformed row</td></tr>
      </tbody></table>
      <div id="paginator_example_bottom"><a href="/?req=x&amp;page=7">7</a></div>
    "#;

#[test]
fn parses_metadata_and_removes_duplicate_hashes() {
    let results = finish(libgen::parse(FIXTURE, 25));

    assert_eq!(results.books.len(), 1);
    assert_eq!(results.total_pages, Some(7));
    let book = &results.books[0];
    assert_eq!(book.id, HASH);
    assert_eq!(book.title, "The Book");
    assert_eq!(book.authors, vec!["Jane Doe"]);
    assert_eq!(book.language.as_deref(), Some("English"));
    assert_eq!(book.downloads[0].format, Format::Epub);
    assert_eq!(book.downloads[0].size, Some(2_500_000));
    assert_eq!(
        book.downloads[0].url,
        format!("{}{HASH}", libgen::DOWNLOAD_URL)
    );
}

#[test]
fn reads_total_pages_from_server_script() {
    let body =
        r#"<script>new Paginator("paginator_example_bottom", 80, 25, 1, "/?page=");</script>"#;

    assert_eq!(libgen::total_pages(body, &Vec::new()), Some(80));
    assert_eq!(libgen::parse(body, 25).total_pages, Some(80));
}

#[test]
fn applies_limit_after_deduplication() {
    assert!(libgen::parse(FIXTURE, 0).drafts.is_empty());
    assert_eq!(libgen::parse(FIXTURE, 1).drafts.len(), 1);
}

#[test]
fn rejects_non_ebook_extensions() {
    assert_eq!(libgen::format_from_extension("bin"), None);
    assert_eq!(libgen::format_from_extension("rar"), None);
    assert_eq!(libgen::format_from_extension("cbz"), None);
    assert_eq!(
        libgen::format_from_extension("azw3"),
        Some(Format::Azw3)
    );
    assert_eq!(
        libgen::format_from_extension("djvu"),
        Some(Format::Djvu)
    );
}

#[test]
fn extracts_keyed_download_for_the_expected_hash() {
    let body = format!(r#"<a href="get.php?md5={HASH}&amp;key=ABC123"><h2>GET</h2></a>"#);

    assert_eq!(
        libgen::keyed_download_url(&body, HASH).as_deref(),
        Some("https://libgen.li/get.php?md5=184c16eae281bf2ebea72eb6d7aa6f6d&key=ABC123")
    );
    assert_eq!(
        libgen::keyed_download_url(&body, "00000000000000000000000000000000"),
        None
    );
}

#[test]
fn switches_between_libgen_cdn_hosts_without_changing_the_key() {
    let url = "https://cdn3.booksdl.lc/get.php?md5=abc&key=temporary-key";

    assert_eq!(
        libgen::alternate_cdn_url(url).as_deref(),
        Some("https://cdn2.booksdl.lc/get.php?md5=abc&key=temporary-key")
    );
}

#[test]
fn switching_hosts_twice_leads_back() {
    for host in ["cdn2.booksdl.lc", "cdn3.booksdl.lc"] {
        let url = format!("https://{host}/get.php?md5={HASH}&key=A_b-9");
        let other = libgen::alternate_cdn_url(&url).unwrap();
        assert_ne!(other, url);
        assert_eq!(libgen::alternate_cdn_url(&other).unwrap(), url);
    }
    assert_eq!(libgen::alternate_cdn_url("https://libgen.li/x"), None);
    assert_eq!(libgen::alternate_cdn_url("not an address"), None);
    assert_eq!(libgen::alternate_host("libgen.li"), None);
}

fn cell(text: &str) -> Cell {
    Cell {
        text: text.to_string(),
        titles: Vec::new(),
        links: Vec::new(),
    }
}

fn row(title: &str, size: &str, extension: &str, href: &str) -> Vec<Cell> {
    vec![
        Cell {
            text: String::new(),
            titles: vec![vec![Some(title.to_string())]],
            links: Vec::new(),
        },
        cell("A. Uthor"),
        cell("P"),
        cell("2020"),
        cell(""),
        cell("10"),
        cell(size),
        cell(extension),
        Cell {
            text: String::new(),
            titles: Vec::new(),
            links: vec![None, Some(href.to_string())],
        },
    ]
}

#[test]
fn table_rows_become_books() {
    let good = row("T", "3 KB", "PDF", &format!("/md5/{HASH}"));
    let draft = libgen::book_from_row(&good).unwrap();
    assert_eq!(draft.book.title, "T");
    assert_eq!(draft.book.language, None);
    assert_eq!(draft.book.downloads[0].format, Format::Pdf);
    let amount = draft.amount.unwrap();
    assert_eq!(amount.digits, "3");
    assert!(amount.multiplier > 0);

    assert!(libgen::book_from_row(&row("T", "3 KB", "exe", &format!("/md5/{HASH}"))).is_none());
    assert!(libgen::book_from_row(&row("T", "3 KB", "pdf", "/no-hash")).is_none());
    assert!(libgen::book_from_row(&vec![cell("short")]).is_none());
}

#[test]
fn hashes_are_read_from_links() {
    assert_eq!(
        libgen::md5_from_href("/md5/184C16EAE281BF2EBEA72EB6D7AA6F6D?x").as_deref(),
        Some(HASH)
    );
    assert_eq!(libgen::md5_from_href("/md5/short"), None);
    assert_eq!(libgen::page_from_href("/?req=x&page=12"), Some(12));
    assert_eq!(libgen::page_from_href("/?req=x"), None);
    assert_eq!(libgen::page_from_href("/?page=x"), None);
}

#[test]
fn a_file_is_asked_for_five_times_at_most() {
    let start = "https://libgen.li/ads.php";
    let mut fetch = libgen::Fetch::new(start);
    let mut waits = Vec::new();
    loop {
        let step = fetch.on_response(
            503,
            "https://cdn3.booksdl.lc/get.php?md5=abc&key=k",
            "",
            None,
        );
        match step {
            libgen::ResponseStep::Retry { wait_ms } => waits.push(wait_ms),
            other => {
                assert_eq!(other, libgen::ResponseStep::Fail);
                break;
            }
        }
        assert_eq!(fetch.url, "https://cdn2.booksdl.lc/get.php?md5=abc&key=k");
    }
    assert_eq!(waits, vec![400, 800, 1200, 1600]);
    assert_eq!(fetch.attempt, 5);
}

#[test]
fn responses_are_told_apart() {
    let mut fetch = libgen::Fetch::new("u");
    let attached = Some("Attachment; filename=x".to_string());
    assert_eq!(
        fetch.on_response(200, "u", "application/epub+zip", attached.clone()),
        libgen::ResponseStep::Save
    );
    assert_eq!(
        fetch.on_response(200, "u", "text/html; charset=utf-8", attached),
        libgen::ResponseStep::ReadPage
    );
    assert_eq!(
        fetch.on_response(200, "u", "application/epub+zip", None),
        libgen::ResponseStep::ReadPage
    );
    assert_eq!(
        fetch.on_response(404, "u", "", None),
        libgen::ResponseStep::Fail
    );
    assert_eq!(fetch.attempt, 1);
    let page = format!(r#"<a href="get.php?md5={HASH}&amp;key=K">GET</a>"#);
    assert_eq!(
        fetch.on_page(Some(page), HASH, "start"),
        libgen::NextStep::Again
    );
    assert_eq!(fetch.url, format!("https://libgen.li/get.php?md5={HASH}&key=K"));
    assert_eq!(fetch.on_page(None, HASH, "start"), libgen::NextStep::Again);
    assert_eq!(fetch.url, "start");
    assert_eq!(fetch.on_saved(9, Some(10)), libgen::NextStep::Again);
    assert_eq!(fetch.on_saved(9, None), libgen::NextStep::Done);
    assert_eq!(fetch.on_saved(10, Some(10)), libgen::NextStep::Done);
    assert_eq!(fetch.on_keyed(None, "start"), libgen::NextStep::Again);
    assert_eq!(fetch.attempt, 5);
    assert_eq!(fetch.on_saved(9, Some(10)), libgen::NextStep::GiveUp);
    assert_eq!(fetch.on_keyed(None, "start"), libgen::NextStep::GiveUp);
    assert_eq!(
        libgen::incomplete_failure(9, Some(10)),
        "incomplete LibGen download: received 9 bytes, expected Some(10)"
    );
    assert_eq!(
        libgen::incomplete_failure(9, None),
        "incomplete LibGen download: received 9 bytes, expected None"
    );
}

// ---- Anna's Archive ------------------------------------------------------------

const ANNAS_HASH: &str = "19ac63986ba813dd3500ae1d00a9cb18";

#[test]
fn parses_search_metadata_and_pages() {
    let body = format!(
        r#"
            <div class="flex pt-3 pb-3 border-b">
              <div>
                <a href="/md5/{ANNAS_HASH}" class="js-vim-focus">Marsovac</a>
                <a href="/search?q=Andy+Weir">Andy Weir</a>
              </div>
              <div class="text-gray-800">Serbian [sr] · EPUB · 0.4MB · 2013</div>
            </div>
            <nav aria-label="Pagination">
              <a href="/search?q=x&amp;page=2">2</a>
              <a href="/search?q=x&amp;page=10">10</a>
            </nav>
            "#
    );
    let results = finish(annas_archive::parse_search(&body, 25, 1).unwrap());
    assert_eq!(results.total_pages, None);
    assert_eq!(results.books.len(), 1);
    let book = &results.books[0];
    assert_eq!(book.id, ANNAS_HASH);
    assert_eq!(book.title, "Marsovac");
    assert_eq!(book.authors, vec!["Andy Weir"]);
    assert_eq!(book.language.as_deref(), Some("Serbian"));
    assert_eq!(book.downloads[0].format, Format::Epub);
    assert_eq!(book.downloads[0].size, Some(400_000));
    assert_eq!(
        book.downloads[0].url,
        format!("https://annas-archive.gl/slow_download/{ANNAS_HASH}/0/0")
    );
}

#[test]
fn extracts_partner_url_for_expected_format() {
    let body = r#"
          <a href="https://example.test/ad.html">ad</a>
          <a href="https://partner.test/files/Marsovac.epub?token=abc">Download now</a>
        "#;
    assert_eq!(
        annas_archive::direct_download_url(body, &Format::Epub).as_deref(),
        Some("https://partner.test/files/Marsovac.epub?token=abc")
    );
    assert_eq!(annas_archive::direct_download_url(body, &Format::Pdf), None);
}

#[test]
fn rejects_non_ebook_formats() {
    assert_eq!(annas_archive::format_from_extension("bin"), None);
    assert_eq!(annas_archive::format_from_extension("zip"), None);
    assert_eq!(
        annas_archive::format_from_extension("PDF"),
        Some(Format::Pdf)
    );
}

#[test]
fn only_reports_an_exact_total_at_the_end_of_pagination() {
    let links = vec![Some("/search?q=x&page=3".to_string())];
    assert_eq!(annas_archive::pagination_end(&links, 2, false), None);
    assert_eq!(annas_archive::pagination_end(&links, 3, false), Some(3));
    assert_eq!(annas_archive::pagination_end(&links, 4, true), Some(3));

    let body = r#"<nav aria-label="Pagination"><a href="/search?q=x&amp;page=3">3</a></nav>"#;
    assert_eq!(
        annas_archive::parse_search(body, 0, 2).unwrap().total_pages,
        annas_archive::pagination_end(&links, 2, true)
    );
    assert_eq!(
        annas_archive::parse_search(body, 0, 4).unwrap().total_pages,
        Some(3)
    );
}

fn result(hash: &str, title: &str, metadata: &str) -> ResultLink {
    ResultLink {
        href: Some(format!("/md5/{hash}")),
        text: title.to_string(),
        around: vec![
            Some(Ancestor {
                tag: "div".to_string(),
                class: None,
                authors: Vec::new(),
                metadata: Vec::new(),
            }),
            None,
            Some(Ancestor {
                tag: "div".to_string(),
                class: Some("flex border-b".to_string()),
                authors: vec![" A.  Uthor ".to_string()],
                metadata: vec![metadata.to_string()],
            }),
        ],
    }
}

#[test]
fn results_with_the_same_hash_are_listed_once() {
    let other = "00000000000000000000000000000001";
    let links = vec![
        result(ANNAS_HASH, "First", "English [en] · PDF · 2MB"),
        result(ANNAS_HASH, "Again", "English [en] · PDF · 2MB"),
        result("short", "No hash", "English [en] · PDF · 2MB"),
        result(other, "Second", "French [fr] · EPUB"),
    ];
    let drafts = annas_archive::books_from_results(&links, 25);
    let titles: Vec<&str> = drafts.iter().map(|draft| draft.book.title.as_str()).collect();
    assert_eq!(titles, vec!["First", "Second"]);
    assert_eq!(drafts[0].book.authors, vec!["A. Uthor"]);
    assert_eq!(drafts[1].book.language.as_deref(), Some("French"));
    assert!(drafts[1].amount.is_none());
    assert_eq!(annas_archive::books_from_results(&links, 1).len(), 1);
    assert_eq!(annas_archive::result_container(&links[0].around), Some(2));
    assert_eq!(annas_archive::result_container(&Vec::new()), None);
}

#[test]
fn browser_checks_are_waited_for() {
    assert_eq!(
        annas_archive::challenge_step("DDoS-Guard", 34),
        annas_archive::ChallengeStep::Wait
    );
    assert_eq!(
        annas_archive::challenge_step("Just a moment...", 35),
        annas_archive::ChallengeStep::TimedOut
    );
    assert_eq!(
        annas_archive::challenge_step("Anna's Archive", 99),
        annas_archive::ChallengeStep::Ready
    );
    assert!(matches!(
        annas_archive::partner_step(None, 24),
        annas_archive::PartnerStep::Wait
    ));
    assert!(matches!(
        annas_archive::partner_step(None, 25),
        annas_archive::PartnerStep::TimedOut
    ));
    assert!(matches!(
        annas_archive::partner_step(Some("u".to_string()), 99),
        annas_archive::PartnerStep::Found(url) if url == "u"
    ));
}

#[test]
fn the_browser_has_a_place_and_a_name() {
    assert_eq!(
        annas_archive::browser_profile_dir(true, true),
        (annas_archive::ProfileBase::Cache, "tui-book-search/annas-chromium")
    );
    assert_eq!(
        annas_archive::browser_profile_dir(false, true),
        (annas_archive::ProfileBase::Home, ".cache/tui-book-search/annas-chromium")
    );
    assert_eq!(
        annas_archive::browser_profile_dir(false, false),
        (annas_archive::ProfileBase::Temporary, "tui-book-search/annas-chromium")
    );
    assert_eq!(
        annas_archive::browser_name("Mozilla/5.0 HeadlessChrome/120.0 HeadlessChrome/1"),
        "Mozilla/5.0 Chrome/120.0 Chrome/1"
    );
    assert_eq!(annas_archive::browser_name("plain"), "plain");
}

#[test]
fn texts_are_attached_to_the_nodes_they_were_found_in() {
    let frame = |tag: &str| {
        Some(Frame {
            tag: tag.to_string(),
            class: Some("row".to_string()),
        })
    };
    let link = |href: &str, around: Vec<Option<Frame>>| FramedLink {
        href: Some(href.to_string()),
        text: "title".to_string(),
        around,
    };
    let texts = |list: &[&str]| Some(list.iter().map(|s| s.to_string()).collect::<Vec<_>>());
    let links = vec![
        link("/a", vec![frame("div"), None]),
        link("/b", vec![frame("td")]),
    ];
    let authors = vec![vec![texts(&["x", "y"]), None], vec![texts(&["z"])]];
    let metadata = vec![vec![texts(&["m"]), None]];
    let results = attach_all(links, &authors, &metadata);
    assert_eq!(results.len(), 2);
    assert_eq!(results[0].href.as_deref(), Some("/a"));
    assert_eq!(results[0].text, "title");
    assert_eq!(results[0].around.len(), 2);
    assert!(results[0].around[1].is_none());
    let first = results[0].around[0].as_ref().unwrap();
    assert_eq!((first.tag.as_str(), first.class.as_deref()), ("div", Some("row")));
    assert_eq!(first.authors, vec!["x", "y"]);
    assert_eq!(first.metadata, vec!["m"]);
    let second = results[1].around[0].as_ref().unwrap();
    assert_eq!(second.authors, vec!["z"]);
    assert!(second.metadata.is_empty());
}

#[test]
fn the_first_partner_link_in_the_format_counts() {
    let some = |s: &str| Some(s.to_string());
    let links = vec![None, some("u0"), some("u1"), some("u2"), some("u3")];
    let paths = vec![some("/a.epub"), None, some("/x.pdf"), some("/b.EPUB"), some("/c.epub")];
    assert_eq!(
        annas_archive::first_partner(&links, &paths, &Format::Epub),
        some("u2")
    );
    assert_eq!(
        annas_archive::first_partner(&links, &paths, &Format::Pdf),
        some("u1")
    );
    assert_eq!(annas_archive::first_partner(&links, &paths, &Format::Fb2), None);
}

#[test]
fn a_profile_lock_names_its_process() {
    assert_eq!(annas_archive::lock_holder("my-host-4242"), Some(4242));
    assert_eq!(annas_archive::lock_holder("4242"), Some(4242));
    assert_eq!(annas_archive::lock_holder("my-host"), None);
    assert_eq!(annas_archive::lock_holder(""), None);
    assert!(annas_archive::may_clear_lock(false, false));
    assert!(!annas_archive::may_clear_lock(true, false));
    assert!(!annas_archive::may_clear_lock(false, true));
}

#[test]
fn ordinary_pages_can_be_parsed() {
    assert!(fits(""));
    assert!(fits(FIXTURE));
    let post = e_biblioteka::Post {
        id: 1,
        title: e_biblioteka::Rendered {
            rendered: "T".to_string(),
        },
        content: e_biblioteka::Rendered {
            rendered: String::new(),
        },
    };
    assert!(post.fits());
}
