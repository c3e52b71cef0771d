use tui_book_search::source::http;
use tui_book_search::source::http::{Head, SizeReply, Transfer, Verdict};
use tui_book_search::source::{Book, Download, Format};

fn book(source: &'static str, id: &str, title: &str, downloads: Vec<Download>) -> Book {
    Book {
        source,
        id: id.to_string(),
        title: title.to_string(),
        authors: Vec::new(),
        language: None,
        downloads,
    }
}

fn download(url: &str, size: Option<u64>) -> Download {
    Download {
        format: Format::Pdf,
        url: url.to_string(),
        size,
    }
}

#[test]
fn retries_server_errors_and_appends_diagnostic_log() {
    let book = book("test-source", "book-42", "Intermittent book", Vec::new());
    let mut log = String::new();
    let mut error = String::new();
    let mut attempt = 1;
    loop {
        let mut body = Vec::new();
        http::extend_preview(&mut body, b"oops");
        let headers = http::header_line(&vec![
            Some("text/plain".to_string()),
            None,
            None,
            None,
            None,
        ]);
        log.push_str(&http::failure_record(
            7,
            &book,
            500,
            "http://127.0.0.1/book.pdf",
            &headers,
            &http::preview_text(&body),
        ));
        match http::after_response(attempt, 500) {
            Verdict::Retry { wait_ms } => assert_eq!(wait_ms, 300 * attempt),
            verdict => {
                assert_eq!(verdict, Verdict::Fail);
                error.push_str(&http::failure_message(500, "download-errors.log", None));
                break;
            }
        }
        attempt += 1;
    }

    assert!(error.contains("HTTP 500"));
    assert_eq!(log.matches("status=500").count(), 3);
    assert!(log.contains("source=test-source"));
    assert!(log.contains("book_id=book-42"));
    assert!(log.contains("body_preview=oops"));
}

#[test]
fn verdicts_depend_on_the_status() {
    assert_eq!(http::after_response(1, 200), Verdict::Accept);
    assert_eq!(http::after_response(1, 299), Verdict::Accept);
    assert_eq!(http::after_response(1, 300), Verdict::Fail);
    assert_eq!(http::after_response(1, 404), Verdict::Fail);
    assert_eq!(http::after_response(1, 599), Verdict::Retry { wait_ms: 300 });
    assert_eq!(http::after_response(2, 500), Verdict::Retry { wait_ms: 600 });
    assert_eq!(http::after_response(3, 500), Verdict::Fail);
    assert_eq!(http::after_response(1, 600), Verdict::Fail);
}

#[test]
fn file_names_are_tame() {
    let named = |title: &str| {
        http::filename(
            &book("gutenberg", "11", title, Vec::new()),
            &download("u", None),
        )
    };
    assert_eq!(named("Alice: a/b"), "Alice_ a_b [gutenberg-11].pdf");
    assert_eq!(named("  Čapek-1  "), "Čapek-1 [gutenberg-11].pdf");
    assert_eq!(named(""), " [gutenberg-11].pdf");
    let long = "x".repeat(200);
    assert_eq!(named(&long), format!("{} [gutenberg-11].pdf", "x".repeat(80)));
    assert!(!named("../../etc/passwd").contains('/'));
}

#[test]
fn file_names_agree_with_the_standard_library_on_letters() {
    for code in (0u32..0x3000).chain(0x1f600..0x1f700) {
        if let Some(c) = char::from_u32(code) {
            let name = http::filename(
                &book("s", "i", &format!("a{c}a"), Vec::new()),
                &download("u", None),
            );
            let kept = c.is_alphanumeric() || c == ' ' || c == '-';
            assert_eq!(name.chars().nth(1) == Some(c) || c == '_', kept || c == '_');
        }
    }
}

#[test]
fn announced_lengths_count_first() {
    assert_eq!(Transfer::new(Some(5), Some(7)).total, Some(5));
    assert_eq!(Transfer::new(None, Some(7)).total, Some(7));
    assert_eq!(Transfer::new(None, None).total, None);
    let mut transfer = Transfer::new(Some(5), None);
    transfer.advance(3);
    transfer.advance(2);
    assert_eq!(transfer.seen, 5);
    assert_eq!(transfer.total, Some(5));
}

fn shelf() -> Vec<Book> {
    vec![
        book("s", "0", "A", vec![download("a0", Some(1)), download("a1", None)]),
        book("s", "1", "B", Vec::new()),
        book("s", "2", "C", vec![download("c0", None)]),
    ]
}

fn sizes(books: &[Book]) -> Vec<Vec<Option<u64>>> {
    books
        .iter()
        .map(|book| book.downloads.iter().map(|file| file.size).collect())
        .collect()
}

#[test]
fn sizes_are_asked_for_in_order() {
    let all: Vec<String> = http::size_requests(&shelf(), usize::MAX)
        .iter()
        .map(|request| format!("{}-{}-{}", request.book, request.download, request.url))
        .collect();
    assert_eq!(all, vec!["0-0-a0", "0-1-a1", "2-0-c0"]);
    assert_eq!(http::size_requests(&shelf(), 1).len(), 2);
}

#[test]
fn answers_may_come_in_any_order() {
    let a = SizeReply {
        book: 0,
        download: 1,
        head: Head::Answered {
            status: 200,
            length: Some(9),
        },
    };
    let b = SizeReply {
        book: 0,
        download: 0,
        head: Head::Answered {
            status: 404,
            length: Some(8),
        },
    };
    let c = SizeReply {
        book: 2,
        download: 0,
        head: Head::Unreachable,
    };
    let expected = vec![vec![Some(1), Some(9)], vec![], vec![None]];
    assert_eq!(sizes(&http::apply_sizes(shelf(), &vec![a, b, c])), expected);
    assert_eq!(sizes(&http::apply_sizes(shelf(), &vec![c, b, a])), expected);
}

#[test]
fn previews_are_short_and_on_one_line() {
    let mut body = vec![b'x'; 4000];
    http::extend_preview(&mut body, &[b'y'; 200]);
    assert_eq!(body.len(), 4096);
    http::extend_preview(&mut body, b"more");
    assert_eq!(body.len(), 4096);
    assert_eq!(http::preview_text(b"a\r\nb\xff"), "a  b\u{fffd}");
    assert_eq!(http::on_one_line("a\nb\rc"), "a b c");
}

#[test]
fn failures_are_written_down() {
    assert_eq!(
        http::failure_headers(),
        vec!["content-type", "server", "cf-ray", "retry-after", "location"]
    );
    let values = vec![
        Some("text/html".to_string()),
        None,
        Some("1".to_string()),
        None,
        None,
    ];
    assert_eq!(http::header_line(&values), "content-type=text/html; cf-ray=1");
    let record = http::failure_record(
        12,
        &book("libgen", "x", "A\nB", Vec::new()),
        503,
        "https://e.test/",
        "h",
        "p",
    );
    assert_eq!(
        record,
        "time_unix=12\nsource=libgen\nbook_id=x\ntitle=A B\nstatus=503\nurl=https://e.test/\nheaders=h\nbody_preview=p\n---\n"
    );
    assert_eq!(
        http::failure_message(503, "l", None),
        "download returned HTTP 503; details saved to l"
    );
    assert_eq!(
        http::failure_message(503, "l", Some("full".to_string())),
        "download returned HTTP 503; could not write l: full"
    );
}

#[test]
fn diagnostics_are_written_down() {
    let record = http::diagnostic_record(
        12,
        &book("annas-archive", "x", "A\nB", Vec::new()),
        "partner-link",
        "https://e.test/",
        "a\r\nb",
    );
    assert_eq!(
        record,
        "time_unix=12\nsource=annas-archive\nbook_id=x\ntitle=A B\nstage=partner-link\nurl=https://e.test/\ndetails=a  b\n---\n"
    );
    assert_eq!(
        http::diagnostic_message("partner-link", "l", None),
        "partner-link failed; details saved to l"
    );
    assert_eq!(
        http::diagnostic_message("partner-link", "l", Some("full".to_string())),
        "partner-link failed; could not write l: full"
    );
}
