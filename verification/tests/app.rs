use tui_book_search::app::input::{self, Held, Key, KeyEvent, MouseEvent};
use tui_book_search::app::rows::{self, Figures};
use tui_book_search::app::{
    Action, After, App, Area, Entry, Field, Mode, Msg, Saved, Status, RESULTS_PER_PAGE,
};
use tui_book_search::field::TextField;
use tui_book_search::files::{is_ebook, FoundFile, LibraryEntry};
use tui_book_search::preferences::{Folder, Preferences};
use tui_book_search::source::{self, Book, Catalog, Download, Format, SearchResults};
use tui_book_search::theme::{Span, Style, Tone};

fn new_app() -> App {
    App::new(source::all(), Preferences::default(), false)
}

fn book(title: &str, author: &str) -> Book {
    Book {
        source: "gutenberg",
        id: "11".into(),
        title: title.into(),
        authors: vec![author.into()],
        language: None,
        downloads: vec![Download {
            format: Format::Epub,
            url: "https://example.invalid/x.epub".into(),
            size: Some(188_960),
        }],
    }
}

fn entry(book: Book, marked: bool, status: Status) -> Entry {
    Entry {
        book,
        marked,
        status,
        started: None,
    }
}

fn figures() -> Figures {
    Figures {
        sizes: vec!["189.0".to_string()],
        seen: "41.2".to_string(),
        eighths: 56,
        percent: "50".to_string(),
        elapsed: 3_000_000_000,
        speed: "31.5 kB".to_string(),
        remaining: 3,
        partial: false,
    }
}

fn content(spans: &[Span]) -> String {
    spans.iter().map(|span| span.content.as_str()).collect()
}

fn field(text: &str) -> TextField {
    TextField::new(text.to_string())
}

fn press(key: Key) -> KeyEvent {
    KeyEvent {
        key,
        held: Held::nothing(),
        press: true,
    }
}

fn control(c: char) -> KeyEvent {
    KeyEvent {
        key: Key::Char(c),
        held: Held {
            control: true,
            ..Held::nothing()
        },
        press: true,
    }
}

fn found(count: usize) -> SearchResults {
    SearchResults {
        books: (0..count).map(|i| book(&format!("Book {i}"), "A")).collect(),
        total_pages: None,
    }
}

fn searching(query: &str) -> App {
    let mut app = new_app();
    for c in query.chars() {
        app.handle_key(press(Key::Char(c)), 0);
    }
    match app.handle_key(press(Key::Enter), 0) {
        Action::Search(_) => app,
        other => panic!("{other:?}"),
    }
}

fn reply(app: &mut App, source: Catalog, result: Result<SearchResults, String>) -> Action {
    let generation = app.generation;
    app.receive(Msg::Results {
        generation,
        source,
        result,
    })
}

// ---- what the screen says ------------------------------------------------------

#[test]
fn renders() {
    let mut app = new_app();
    app.input = field("alice");
    app.mode = Mode::Browse;
    app.status = "3 result(s) — Space marks, d downloads".into();
    app.entries = vec![
        entry(
            book("Alice's Adventures in Wonderland", "Carroll, Lewis"),
            true,
            Status::Downloading {
                seen: 94_480,
                total: Some(188_960),
            },
        ),
        entry(
            book("Through the Looking-Glass", "Carroll, Lewis"),
            true,
            Status::Queued,
        ),
        entry(
            book("Alice's Adventures Under Ground", "Carroll, Lewis"),
            false,
            Status::Done(Saved {
                file: 0,
                name: "alice.epub".into(),
            }),
        ),
        entry(
            book("The Nursery Alice", "Carroll, Lewis"),
            false,
            Status::Downloading {
                seen: 41_233,
                total: None,
            },
        ),
        entry(
            book("Sylvie and Bruno", "Carroll, Lewis"),
            false,
            Status::Failed("404 Not Found".into()),
        ),
        entry(book("Rhyme and Reason", "Carroll, Lewis"), false, Status::Idle),
        entry(book("Euclid", "Carroll, Lewis"), false, Status::Uploading),
    ];
    app.selected = 1;

    let rows: Vec<String> = app
        .entries
        .iter()
        .map(|entry| content(&app.row(entry, &figures(), 106)))
        .collect();
    for row in &rows {
        println!("{row}");
        assert_eq!(row.chars().count(), 106);
    }
    assert!(rows[0].starts_with("✓ gutenberg      Alice's Adventures in Wonderland  Carroll, Lewis"));
    assert!(rows[0].ends_with("███████░░░░░░░  50%  31.5 kB/s   0:03"));
    assert!(rows[1].ends_with("⣧  queued"));
    assert!(rows[2].starts_with("· gutenberg"));
    assert!(rows[2].ends_with("✓ alice.epub"));
    assert!(rows[3].ends_with("▓█▓░░░░░░░░░░░   41.2 kB  31.5 kB/s"));
    assert!(rows[4].ends_with("✗ 404 Not Found"));
    assert!(rows[5].ends_with("epub 189.0 kB"));
    assert!(rows[6].ends_with("⣧  uploading to Drive"));
    assert_eq!(
        content(&app.status_line()),
        "⣧  Downloading 4 books   3 result(s) — Space marks, d downloads"
    );
    assert_eq!(
        content(&app.source_line()),
        "Sources ● gutenberg  ● libgen  ● e-biblioteka  ● annas-archive   (s to change)"
    );
    assert_eq!(
        content(&app.results_legend()),
        " search /  mark space  get d  open o  quit q   page 1 p/n "
    );
    assert_eq!(app.tag_width(), 13);
}

#[test]
fn renders_downloaded_books_tab_and_filters_non_ebooks() {
    assert!(is_ebook("book.EPUB"));
    assert!(is_ebook("book.pdf"));
    assert!(!is_ebook("book.bin"));
    assert!(!is_ebook("cover.jpg"));

    let mut app = new_app();
    app.mode = Mode::Library;
    app.status = "1 downloaded book".into();
    app.library = vec![LibraryEntry {
        file: 0,
        name: "Marsovac.epub".into(),
        size: 374_890,
    }];

    let row = content(&rows::library_row(&app.library[0], "374.9", 66));
    let rendered = format!("{}\n{row}", content(&rows::tabs(Mode::Library)));
    println!("{rendered}");
    assert!(rendered.contains("Downloads"));
    assert!(rendered.contains("Marsovac.epub"));
    assert!(rendered.contains("EPUB"));
    assert!(rendered.contains("374.9 kB"));
    assert_eq!(row.chars().count(), 66);
    assert_eq!(app.count_text(Mode::Library), "1 on disk ");
    assert_eq!(
        content(&rows::library_legend()),
        " open enter  refresh r  search tab "
    );
}

/// Both lists have to say something useful when they have nothing to show.
#[test]
fn renders_empty_states() {
    let mut app = new_app();

    let rendered: String = app
        .results_placeholder()
        .iter()
        .map(|line| content(&line.spans))
        .collect();
    println!("{rendered}");
    assert!(rendered.contains("Nothing here yet"));
    assert!(app.search_placeholder().is_none());

    // Once focus leaves the box, it says how to get back to it.
    app.mode = Mode::Browse;
    let rendered = app.search_placeholder().unwrap().content;
    println!("{rendered}");
    assert!(rendered.contains("press / to search"));

    app.mode = Mode::Library;
    let rendered: String = rows::library_placeholder()
        .iter()
        .map(|line| content(&line.spans))
        .collect();
    println!("{rendered}");
    assert!(rendered.contains("No books downloaded yet"));

    app.pending = 1;
    assert_eq!(
        content(&app.results_placeholder()[0].spans),
        "Searching the catalogs…"
    );
}

#[test]
fn phases_are_named() {
    let mut app = new_app();
    assert_eq!(app.phase(), None);
    app.pending = 2;
    assert_eq!(app.phase().as_deref(), Some("Searching"));
    app.entries.push(entry(book("A", "B"), false, Status::Queued));
    assert_eq!(app.phase().as_deref(), Some("Waiting for the rest"));
    app.pending = 0;
    assert_eq!(app.phase().as_deref(), Some("Downloading"));
    app.entries.push(entry(book("A", "B"), false, Status::Uploading));
    assert_eq!(app.phase().as_deref(), Some("Downloading 2 books"));
    assert_eq!(app.count_text(Mode::Search), "2 found ");
    assert_eq!(app.count_text(Mode::Settings), "configuration ");
}

#[test]
fn formats_are_named_once() {
    let mut shown = book("A", "B");
    shown.language = Some("English".into());
    shown.downloads = vec![
        Download {
            format: Format::Pdf,
            url: "1".into(),
            size: Some(999),
        },
        Download {
            format: Format::Pdf,
            url: "2".into(),
            size: None,
        },
        Download {
            format: Format::Txt,
            url: "3".into(),
            size: None,
        },
    ];
    let app = new_app();
    let mut figures = figures();
    figures.sizes = vec![String::new(), String::new(), String::new()];
    let shown = entry(shown, false, Status::Idle);
    assert_eq!(
        content(&app.status_cell(&shown, &figures)),
        "pdf 999 B  txt"
    );
    assert!(content(&app.row(&shown, &figures, 80)).contains("A  B  English"));
}

#[test]
fn areas_are_divided() {
    let area = |y: u16, height: u16| Area {
        x: 1,
        y,
        width: 20,
        height,
    };
    assert_eq!(rows::placeholder_area(area(4, 0), 3), None);
    assert_eq!(rows::placeholder_area(area(4, 9), 3), Some(area(7, 6)));
    assert_eq!(rows::placeholder_area(area(4, 2), 3), Some(area(4, 2)));
    assert!(rows::needs_scrollbar(area(0, 10), 9));
    assert!(!rows::needs_scrollbar(area(0, 10), 8));
    assert!(rows::needs_scrollbar(area(0, 1), 1));
    assert_eq!(rows::content_width(area(0, 0)), 16);
    let mut app = new_app();
    assert_eq!(content(&app.settings_help()[2].spans), "rclone is not installed. Configure it with: rclone config");
    app.rclone_available = true;
    assert_eq!(app.settings_help()[2].spans[0].content, "rclone is installed");
}

// ---- replies -------------------------------------------------------------------

#[test]
fn successful_download_clears_the_mark() {
    let mut app = new_app();
    app.entries.push(Entry {
        book: book("Marsovac", "Andy Weir"),
        marked: true,
        status: Status::Queued,
        started: Some(0),
    });
    let generation = app.generation;
    app.receive(Msg::Done {
        generation,
        idx: 0,
        saved: Saved {
            file: 0,
            name: "Marsovac.epub".into(),
        },
        drive: None,
    });

    assert!(!app.entries[0].marked);
    assert!(matches!(app.entries[0].status, Status::Done(_)));
}

#[test]
fn downloads_report_their_progress() {
    let mut app = new_app();
    app.entries.push(entry(book("A", "B"), true, Status::Queued));
    app.receive(Msg::Progress {
        generation: 0,
        idx: 0,
        seen: 5,
        total: Some(9),
    });
    assert!(matches!(
        app.entries[0].status,
        Status::Downloading {
            seen: 5,
            total: Some(9)
        }
    ));
    app.receive(Msg::Uploading {
        generation: 0,
        idx: 0,
    });
    assert!(matches!(app.entries[0].status, Status::Uploading));
    app.receive(Msg::Failed {
        generation: 0,
        idx: 0,
        error: "gone".into(),
    });
    assert!(matches!(&app.entries[0].status, Status::Failed(error) if error == "gone"));
    assert!(app.entries[0].marked);
    app.receive(Msg::Uploading {
        generation: 0,
        idx: 7,
    });
    assert!(matches!(app.entries[0].status, Status::Failed(_)));
    let saved = || Saved {
        file: 3,
        name: "a".into(),
    };
    app.receive(Msg::Done {
        generation: 0,
        idx: 0,
        saved: saved(),
        drive: Some(Ok("gdrive:a".into())),
    });
    assert_eq!(app.status, "uploaded to Google Drive: gdrive:a");
    app.receive(Msg::Done {
        generation: 0,
        idx: 0,
        saved: saved(),
        drive: Some(Err("no".into())),
    });
    assert_eq!(app.status, "saved locally; Google Drive: no");
}

#[test]
fn stale_replies_are_dropped() {
    let mut app = searching("alice");
    let old = app.generation;
    app.handle_key(press(Key::Enter), 0);
    assert_eq!(app.generation, old + 1);
    let status = app.status.clone();
    let action = app.receive(Msg::Results {
        generation: old,
        source: Catalog::Libgen,
        result: Ok(found(3)),
    });
    assert!(matches!(action, Action::Nothing));
    assert!(app.entries.is_empty());
    assert_eq!(app.pending, 4);
    assert_eq!(app.status, status);
}

#[test]
fn replies_add_up_to_a_page() {
    let mut app = searching("  alice ");
    assert_eq!(app.status, "searching for \"alice\" — page 1");
    assert_eq!(app.pending, 4);
    reply(&mut app, Catalog::Gutendex, Ok(found(30)));
    assert_eq!(app.entries.len(), 30);
    assert_eq!(app.mode, Mode::Search);
    reply(&mut app, Catalog::Libgen, Err("offline".into()));
    assert_eq!(app.status, "libgen: offline");
    reply(&mut app, Catalog::EBiblioteka, Ok(found(30)));
    assert_eq!(app.entries.len(), 60);
    reply(&mut app, Catalog::AnnasArchive, Ok(found(5)));
    assert_eq!(app.entries.len(), RESULTS_PER_PAGE);
    assert_eq!(app.total_pages, None);
    assert_eq!(app.mode, Mode::Browse);
    assert_eq!(
        app.status,
        "50/50 results — page 1 — n for next page — Space marks, d downloads"
    );
}

#[test]
fn totals_are_exact_or_unknown() {
    let mut app = searching("x");
    for (source, total) in [
        (Catalog::Gutendex, 3),
        (Catalog::Libgen, 7),
        (Catalog::EBiblioteka, 2),
    ] {
        let mut results = found(1);
        results.total_pages = Some(total);
        reply(&mut app, source, Ok(results));
    }
    assert_eq!(app.exact_total_pages(), None);
    let mut results = found(0);
    results.total_pages = Some(1);
    reply(&mut app, Catalog::AnnasArchive, Ok(results));
    assert_eq!(app.total_pages, Some(7));
    assert_eq!(app.status, "3/50 results — page 1/7 — Space marks, d downloads");

    // The second page is only asked for where there is one.
    match app.handle_key(press(Key::Right), 0) {
        Action::Search(job) => {
            assert_eq!(job.page, 2);
            assert_eq!(
                job.sources,
                vec![Catalog::Gutendex, Catalog::Libgen, Catalog::EBiblioteka]
            );
        }
        other => panic!("{other:?}"),
    }
    app.page = 7;
    assert!(matches!(app.change_page(1), Action::Nothing));
    assert_eq!(app.page, 7);
    app.page = 1;
    assert!(matches!(app.change_page(-1), Action::Nothing));
    assert_eq!(app.page, 1);
}

#[test]
fn an_empty_tail_falls_back_to_the_last_page() {
    let mut app = searching("x");
    for entry in app.sources.iter_mut() {
        entry.enabled = entry.source == Catalog::Gutendex;
    }
    app.page = 4;
    app.pending = 1;
    let results = SearchResults {
        books: Vec::new(),
        total_pages: Some(2),
    };
    match reply(&mut app, Catalog::Gutendex, Ok(results)) {
        Action::Search(job) => assert_eq!(job.page, 2),
        other => panic!("{other:?}"),
    }
    assert_eq!(app.page, 2);
    let results = SearchResults {
        books: Vec::new(),
        total_pages: Some(2),
    };
    assert!(matches!(
        reply(&mut app, Catalog::Gutendex, Ok(results)),
        Action::Nothing
    ));
    assert_eq!(app.status, "no results");
}

#[test]
fn searches_need_a_query_and_a_catalog() {
    let mut app = new_app();
    assert!(matches!(
        app.handle_key(press(Key::Enter), 0),
        Action::Nothing
    ));
    assert_eq!(app.status, "type something first");
    app.handle_key(press(Key::Char('x')), 0);
    for entry in app.sources.iter_mut() {
        entry.enabled = false;
    }
    assert!(matches!(app.start_search(), Action::Nothing));
    assert_eq!(app.status, "no sources enabled — press s");
    assert_eq!(app.generation, 0);
}

// ---- the mouse -----------------------------------------------------------------

#[test]
fn mouse_click_selects_and_marks_a_result() {
    let mut app = new_app();
    app.mode = Mode::Browse;
    app.entries = vec![
        entry(book("First", "Author"), false, Status::Idle),
        entry(book("Second", "Author"), false, Status::Idle),
    ];
    app.results_area = Area {
        x: 0,
        y: 4,
        width: 80,
        height: 8,
    };
    app.handle_mouse(MouseEvent::LeftDown { column: 4, row: 6 });

    assert_eq!(app.selected, 1);
    assert!(app.entries[1].marked);
    assert!(!app.entries[0].marked);
}

#[test]
fn mouse_scroll_stops_at_list_edges() {
    assert_eq!(input::clamped_index(0, -3, 10), 0);
    assert_eq!(input::clamped_index(8, 3, 10), 9);
    assert_eq!(input::clamped_index(9, 3, 10), 9);
    assert_eq!(input::clamped_index(0, 3, 0), 0);
}

#[test]
fn steps_go_round() {
    assert_eq!(input::wrapped_index(0, -1, 3), 2);
    assert_eq!(input::wrapped_index(2, 1, 3), 0);
    assert_eq!(input::wrapped_index(1, -7, 3), 0);
    assert_eq!(input::wrapped_index(5, 1, 0), 5);
    for current in 0..5 {
        for delta in -7..7 {
            let there = input::wrapped_index(current, delta, 5);
            assert!(there < 5);
            assert_eq!(input::wrapped_index(there, -delta, 5), current);
        }
    }
}

#[test]
fn clicks_outside_the_rows_do_nothing() {
    let area = Area {
        x: 2,
        y: 3,
        width: 10,
        height: 5,
    };
    assert_eq!(input::clicked_row(3, 4, area, 10, 50), Some(10));
    assert_eq!(input::clicked_row(10, 6, area, 10, 50), Some(12));
    assert_eq!(input::clicked_row(2, 4, area, 10, 50), None);
    assert_eq!(input::clicked_row(11, 4, area, 10, 50), None);
    assert_eq!(input::clicked_row(3, 3, area, 10, 50), None);
    assert_eq!(input::clicked_row(3, 7, area, 10, 50), None);
    assert_eq!(input::clicked_row(3, 6, area, 10, 12), None);
}

#[test]
fn the_wheel_scrolls_the_open_list() {
    let mut app = new_app();
    app.handle_mouse(MouseEvent::ScrollDown);
    assert_eq!(app.mode, Mode::Search);
    app.entries = (0..5)
        .map(|_| entry(book("A", "B"), false, Status::Idle))
        .collect();
    app.handle_mouse(MouseEvent::ScrollDown);
    assert_eq!((app.mode, app.selected), (Mode::Browse, 3));
    app.handle_mouse(MouseEvent::ScrollDown);
    assert_eq!(app.selected, 4);
    app.handle_mouse(MouseEvent::ScrollUp);
    assert_eq!(app.selected, 1);
    app.mode = Mode::Library;
    app.library = (0..5)
        .map(|file| LibraryEntry {
            file,
            name: "a".into(),
            size: 0,
        })
        .collect();
    app.handle_mouse(MouseEvent::ScrollDown);
    assert_eq!((app.selected, app.library_selected), (1, 3));
    app.library_area = Area {
        x: 0,
        y: 0,
        width: 9,
        height: 9,
    };
    app.handle_mouse(MouseEvent::LeftDown { column: 1, row: 2 });
    assert_eq!(app.library_selected, 1);
    app.handle_mouse(MouseEvent::Other);
    assert_eq!(app.library_selected, 1);
}

// ---- keys ----------------------------------------------------------------------

#[test]
fn control_c_leaves_from_everywhere() {
    for mode in [
        Mode::Search,
        Mode::Browse,
        Mode::Sources,
        Mode::Library,
        Mode::Settings,
    ] {
        let mut app = new_app();
        app.mode = mode;
        app.handle_key(
            KeyEvent {
                press: false,
                ..control('c')
            },
            0,
        );
        assert!(!app.exit);
        app.handle_key(control('c'), 0);
        assert!(app.exit);
    }
}

#[test]
fn catalogs_are_picked_and_left() {
    let mut app = new_app();
    app.mode = Mode::Library;
    app.handle_key(press(Key::Function(2)), 0);
    assert_eq!(app.mode, Mode::Sources);
    app.handle_key(control('s'), 0);
    assert_eq!(app.mode, Mode::Sources);
    app.handle_key(press(Key::Up), 0);
    assert_eq!(app.source_cursor, 0);
    for _ in 0..9 {
        app.handle_key(press(Key::Char('l')), 0);
    }
    assert_eq!(app.source_cursor, 3);
    match app.handle_key(press(Key::Char(' ')), 0) {
        Action::SaveSources(preferences) => {
            assert_eq!(preferences.disabled_sources, vec!["annas-archive"]);
            assert_eq!(preferences.download_dir, "downloads");
        }
        other => panic!("{other:?}"),
    }
    app.sources_not_saved("disk full");
    assert_eq!(app.status, "could not save source settings: disk full");
    app.handle_key(press(Key::Tab), 0);
    assert_eq!(app.mode, Mode::Library);
}

#[test]
fn saved_preferences_are_found_again() {
    let mut app = new_app();
    app.sources[1].enabled = false;
    app.sources[3].enabled = false;
    app.download_dir_input = field(" ~/books ");
    app.drive_remote_input = field("gdrive:x");
    let saved = app.preferences();
    assert_eq!(saved.disabled_sources, vec!["annas-archive", "libgen"]);
    let again = App::new(source::all(), saved, true);
    assert_eq!(again.sources, app.sources);
    assert_eq!(again.download_dir_input.text(), "~/books");
    assert_eq!(again.drive_remote_input.text(), "gdrive:x");
    assert_eq!(again.preferences().disabled_sources, app.preferences().disabled_sources);
}

#[test]
fn settings_page_saves_download_folder_and_drive_remote() {
    let mut app = new_app();
    app.download_dir_input = field("/tmp/my-books");
    app.drive_remote_input = field("gdrive:EBookArchive");
    app.mode = Mode::Settings;

    let after = match app.handle_key(press(Key::Enter), 0) {
        Action::PrepareFolder {
            folder: Folder::Given(path),
            after,
        } => {
            assert_eq!(path, "/tmp/my-books");
            after
        }
        other => panic!("{other:?}"),
    };
    let saved = match app.folder_ready("/tmp/my-books".into(), after) {
        Action::SaveSettings { preferences, after } => {
            assert_eq!(after, After::Stay);
            preferences
        }
        other => panic!("{other:?}"),
    };
    app.settings_saved(None, after);
    assert_eq!(saved.download_dir, "/tmp/my-books");
    assert_eq!(saved.google_drive_remote, "gdrive:EBookArchive");
    assert_eq!(app.status, "settings saved");
    assert_eq!(app.mode, Mode::Settings);

    let rendered = content(&rows::tabs(Mode::Settings));
    assert!(rendered.contains("Settings"));
    let rendered = app.field_title(Field::DownloadFolder).content;
    assert!(rendered.contains("Download folder"));
    let rendered = app.field_title(Field::DriveRemote).content;
    assert!(rendered.contains("Google Drive remote"));
}

#[test]
fn titles_are_lit_where_the_text_is_edited() {
    let mut app = new_app();
    assert!(app.has_focus(Field::Query));
    assert_eq!(app.field_title(Field::Query).content, " Search ");
    assert_eq!(app.field_title(Field::Query).style, Style::strong(Tone::Accent));
    app.mode = Mode::Settings;
    assert_eq!(app.focus_tone(Field::Query), Tone::Faint);
    assert_eq!(app.focus_tone(Field::DownloadFolder), Tone::Accent);
    app.handle_key(press(Key::Down), 0);
    assert!(app.has_focus(Field::DriveRemote));
    assert_eq!(
        app.field_title(Field::DownloadFolder).style,
        Style::strong(Tone::Faint)
    );
    assert_eq!(
        app.field_title(Field::DriveRemote).content,
        " Google Drive remote (optional) "
    );
    assert_eq!(rows::list_title(Mode::Browse).content, " Results ");
    assert_eq!(rows::list_title(Mode::Library).content, " Downloaded books ");
    assert_eq!(rows::list_title(Mode::Settings).content, " Storage ");
}

#[test]
fn settings_can_be_refused() {
    let mut app = new_app();
    app.mode = Mode::Settings;
    app.download_dir_input = field("  ");
    assert!(matches!(
        app.handle_key(press(Key::Esc), 0),
        Action::Nothing
    ));
    assert_eq!(app.status, "download folder cannot be empty");
    app.folder_failed("/x", "denied");
    assert_eq!(app.status, "could not create /x: denied");
    app.drive_remote_input = field("nonsense");
    assert!(matches!(
        app.folder_ready("/x".into(), After::Search),
        Action::Nothing
    ));
    assert_eq!(
        app.status,
        "Google Drive remote must look like gdrive:EBookArchive"
    );
    assert_eq!(app.download_dir_input.text(), "  ");
    app.settings_saved(Some("full".into()), After::Search);
    assert_eq!(app.status, "could not save settings: full");
    assert_eq!(app.mode, Mode::Settings);
    app.settings_saved(None, After::Search);
    assert_eq!((app.mode, app.status.as_str()), (Mode::Search, "settings saved"));
    app.mode = Mode::Settings;
    app.settings_saved(None, After::Tab);
    assert_eq!(
        (app.mode, app.status.as_str()),
        (Mode::Search, "type a title or author, then press Enter")
    );
}

#[test]
fn tabs_follow_each_other() {
    let mut app = new_app();
    match app.handle_key(press(Key::Tab), 0) {
        Action::Scan(Folder::Given(path)) => assert_eq!(path, "downloads"),
        other => panic!("{other:?}"),
    }
    assert_eq!(app.mode, Mode::Library);
    app.library_scanned(Vec::new(), "downloads");
    assert_eq!(app.status, "no ebooks in downloads");
    assert!(matches!(
        app.handle_key(press(Key::Tab), 0),
        Action::Nothing
    ));
    assert_eq!(app.mode, Mode::Settings);
    assert_eq!(app.status, "edit a field, then press Enter to save");
    assert!(matches!(
        app.handle_key(press(Key::Tab), 0),
        Action::PrepareFolder {
            after: After::Tab,
            ..
        }
    ));
    assert!(matches!(
        app.handle_key(press(Key::Char('x')), 0),
        Action::Nothing
    ));
    assert_eq!(app.download_dir_input.text(), "downloadsx");
    assert_eq!(app.drive_remote_input.text(), "");
    app.handle_key(press(Key::Down), 0);
    app.handle_key(press(Key::Char('y')), 0);
    assert_eq!(app.download_dir_input.text(), "downloadsx");
    assert_eq!(app.drive_remote_input.text(), "y");
    assert_eq!(app.input.text(), "");
    app.handle_key(control('q'), 0);
    assert!(app.exit);
}

#[test]
fn the_library_is_scanned_and_opened() {
    let mut app = new_app();
    app.library_selected = 9;
    app.mode = Mode::Library;
    let file = |file: usize, name: &str| FoundFile {
        file,
        name: name.into(),
        size: 1,
        is_file: true,
    };
    app.library_scanned(vec![file(4, "b.pdf"), file(5, "a.pdf")], "d");
    assert_eq!(app.status, "2 downloaded books");
    assert_eq!(app.library_selected, 1);
    assert!(matches!(
        app.handle_key(press(Key::Enter), 0),
        Action::Open(4)
    ));
    app.handle_key(press(Key::Down), 0);
    assert!(matches!(
        app.handle_key(press(Key::Char('o')), 0),
        Action::Open(5)
    ));
    app.opened(Ok("foliate".into()));
    assert_eq!(app.status, "opened with foliate");
    app.opened(Err("none".into()));
    assert_eq!(app.status, "could not open: none");
    app.library_scanned(vec![file(1, "x.txt")], "d");
    assert_eq!(app.status, "1 downloaded book");
    app.library_scanned(Vec::new(), "d");
    assert!(matches!(
        app.handle_key(press(Key::Enter), 0),
        Action::Nothing
    ));
}

fn browsing(statuses: Vec<Status>) -> App {
    let mut app = new_app();
    app.mode = Mode::Browse;
    app.entries = statuses
        .into_iter()
        .map(|status| entry(book("A", "B"), false, status))
        .collect();
    app
}

#[test]
fn marked_books_are_downloaded() {
    let mut app = browsing(vec![
        Status::Idle,
        Status::Idle,
        Status::Downloading {
            seen: 1,
            total: None,
        },
        Status::Failed("x".into()),
    ]);
    app.drive_remote_input = field(" gdrive:b ");
    for i in [0, 2, 3] {
        app.entries[i].marked = true;
    }
    match app.handle_key(press(Key::Char('d')), 77) {
        Action::Download {
            generation,
            jobs,
            folder: Folder::Given(folder),
            remote,
        } => {
            assert_eq!(generation, 0);
            let places: Vec<usize> = jobs.iter().map(|job| job.idx).collect();
            assert_eq!(places, vec![0, 3]);
            assert_eq!(jobs[0].source, Catalog::Gutendex);
            assert_eq!(jobs[0].download.url, "https://example.invalid/x.epub");
            assert_eq!(folder, "downloads");
            assert_eq!(remote, "gdrive:b");
        }
        other => panic!("{other:?}"),
    }
    assert!(matches!(app.entries[0].status, Status::Queued));
    assert_eq!(app.entries[0].started, Some(77));
    assert!(app.entries[0].marked);
    assert!(matches!(app.entries[1].status, Status::Idle));
    assert!(matches!(app.entries[2].status, Status::Downloading { .. }));
    app.downloads_started(2, "downloads");
    assert_eq!(app.status, "downloading 2 file(s) into downloads");
}

#[test]
fn the_highlighted_book_is_downloaded_if_none_is_marked() {
    let mut app = browsing(vec![Status::Idle, Status::Idle]);
    app.selected = 1;
    match app.handle_key(press(Key::Enter), 0) {
        Action::Download { jobs, .. } => assert_eq!(jobs[0].idx, 1),
        other => panic!("{other:?}"),
    }
    let mut app = browsing(Vec::new());
    assert!(matches!(
        app.handle_key(press(Key::Char('d')), 0),
        Action::Nothing
    ));
    assert_eq!(app.status, "nothing to download");
    let mut app = browsing(vec![Status::Idle, Status::Idle]);
    app.entries[0].book.source = "html-catalog";
    app.entries[1].book.downloads.clear();
    app.entries[0].marked = true;
    app.entries[1].marked = true;
    match app.download_marked(0) {
        Action::Download { jobs, .. } => assert!(jobs.is_empty()),
        other => panic!("{other:?}"),
    }
}

#[test]
fn downloaded_books_can_be_opened() {
    let mut app = browsing(vec![
        Status::Idle,
        Status::Done(Saved {
            file: 8,
            name: "a".into(),
        }),
    ]);
    assert!(matches!(
        app.handle_key(press(Key::Char('o')), 0),
        Action::Nothing
    ));
    assert_eq!(app.status, "download it first (d)");
    app.handle_key(press(Key::Char('j')), 0);
    assert!(matches!(
        app.handle_key(press(Key::Char('o')), 0),
        Action::Open(8)
    ));
    app.handle_key(press(Key::Char(' ')), 0);
    assert!(app.entries[1].marked);
    app.handle_key(press(Key::Char(' ')), 0);
    assert!(!app.entries[1].marked);
    app.handle_key(press(Key::Char('k')), 0);
    assert_eq!(app.selected, 0);
    app.handle_key(press(Key::Char('/')), 0);
    assert_eq!(app.mode, Mode::Search);
    app.handle_key(press(Key::Down), 0);
    assert_eq!(app.mode, Mode::Browse);
    app.handle_key(press(Key::Esc), 0);
    assert!(app.exit);
}

#[test]
fn tab_moves_to_the_results_and_slash_returns() {
    for key in [Key::Tab, Key::Down] {
        let mut app = browsing(vec![Status::Idle]);
        app.mode = Mode::Search;
        assert!(matches!(app.handle_key(press(key), 0), Action::Nothing));
        assert_eq!(app.mode, Mode::Browse);
        app.handle_key(press(Key::Char('/')), 0);
        assert_eq!(app.mode, Mode::Search);
    }
    let mut app = browsing(vec![Status::Idle]);
    assert!(matches!(
        app.handle_key(press(Key::Tab), 0),
        Action::Scan(_)
    ));
    assert_eq!(app.mode, Mode::Library);
}

#[test]
fn the_highlight_stays_on_the_list() {
    let mut app = searching("x");
    reply(&mut app, Catalog::Libgen, Ok(found(3)));
    app.selected = 2;
    reply(&mut app, Catalog::Gutendex, Ok(found(60)));
    assert_eq!(app.selected, 2);
    reply(&mut app, Catalog::EBiblioteka, Ok(found(60)));
    reply(&mut app, Catalog::AnnasArchive, Ok(found(60)));
    assert_eq!(app.entries.len(), RESULTS_PER_PAGE);
    assert_eq!(app.selected, 2);
}

#[test]
fn only_searches_are_counted() {
    let mut app = searching("x");
    let first = app.generation;
    for key in [Key::Down, Key::Char(' '), Key::Char('j'), Key::Function(3)] {
        app.handle_key(press(key), 0);
        assert_eq!(app.generation, first);
    }
    reply(&mut app, Catalog::Libgen, Ok(found(1)));
    assert_eq!(app.generation, first);
    app.mode = Mode::Search;
    assert!(matches!(
        app.handle_key(press(Key::Enter), 0),
        Action::Search(_)
    ));
    assert_eq!(app.generation, first + 1);
}

#[test]
fn typing_goes_to_the_search_box() {
    let mut app = new_app();
    for c in "alqi".chars() {
        assert!(matches!(
            app.handle_key(press(Key::Char(c)), 0),
            Action::Nothing
        ));
    }
    assert_eq!(app.input.text(), "alqi");
    app.handle_key(press(Key::Other), 0);
    app.handle_key(press(Key::Left), 0);
    app.handle_key(press(Key::Backspace), 0);
    assert_eq!(app.input.text(), "ali");
    app.handle_key(control('u'), 0);
    assert_eq!(app.input.text(), "");
    app.handle_key(control('y'), 0);
    assert_eq!(app.input.text(), "ali");
    assert!(matches!(app.handle_key(press(Key::Esc), 0), Action::Nothing));
    assert_eq!(app.mode, Mode::Search);
    assert!(!app.exit);
}

#[test]
fn ticks_move_the_animation() {
    let mut app = new_app();
    app.frame = u64::MAX;
    app.spinner = 127;
    app.tick();
    assert_eq!((app.frame, app.spinner), (0, 0));
    app.tick();
    assert_eq!((app.frame, app.spinner), (1, 1));
}
