use tui_book_search::files;
use tui_book_search::files::{FoundFile, TargetError};
use tui_book_search::preferences;
use tui_book_search::preferences::{Base, Folder, Preferences};

#[test]
fn extensions_are_those_of_the_standard_library() {
    let names = [
        "book.EPUB", "a.b.c", ".epub", "x.", "plain", "..", ".", "a..b", "..x", ".a.b",
    ];
    for name in names {
        let expected = std::path::Path::new(name)
            .extension()
            .map(|extension| extension.to_str().unwrap().to_string());
        assert_eq!(files::extension(name), expected, "{name}");
    }
}

#[test]
fn books_are_told_by_their_extension() {
    for name in [
        "a.epub", "a.pdf", "a.txt", "a.html", "a.htm", "a.mobi", "a.azw3", "a.djvu", "a.fb2",
        "A.Pdf",
    ] {
        assert!(files::is_ebook(name), "{name}");
    }
    for name in ["a.bin", "a", ".epub", "a.epub.tmp", "cover.jpg", ""] {
        assert!(!files::is_ebook(name), "{name}");
    }
}

fn found(file: usize, name: &str, is_file: bool) -> FoundFile {
    FoundFile {
        file,
        name: name.to_string(),
        size: 1,
        is_file,
    }
}

#[test]
fn library_lists_books_by_name() {
    let library = files::scan_library(vec![
        found(0, "b.pdf", true),
        found(1, "notes.bin", true),
        found(2, "A.epub", true),
        found(3, "folder.epub", false),
        found(4, "B.pdf", true),
        found(5, "a.txt", true),
    ]);
    let files: Vec<usize> = library.iter().map(|entry| entry.file).collect();
    assert_eq!(files, vec![2, 5, 0, 4]);
}

#[test]
fn readers_are_tried_in_order() {
    assert_eq!(files::readers(None, "a.epub"), vec!["foliate", "xdg-open"]);
    assert_eq!(files::readers(None, "a.pdf"), vec!["xdg-open"]);
    assert_eq!(
        files::readers(Some("zathura".to_string()), "a.MOBI"),
        vec!["zathura", "foliate", "xdg-open"]
    );
    assert_eq!(
        files::readers(Some("foliate".to_string()), "a.epub"),
        vec!["foliate", "xdg-open"]
    );
    assert_eq!(
        files::readers(Some("xdg-open".to_string()), "a.epub"),
        vec!["xdg-open", "foliate"]
    );
    assert_eq!(files::readers(Some("  ".to_string()), "a.txt"), vec!["xdg-open"]);
    assert_eq!(
        files::no_reader(&vec![
            files::reader_failure("foliate", "not found"),
            files::reader_failure("xdg-open", "gone"),
        ]),
        "no desktop reader available (foliate: not found, xdg-open: gone)"
    );
}

#[test]
fn builds_google_drive_destination_without_changing_filename() {
    assert_eq!(
        files::google_drive_target(Some("Marsovac.epub"), "gdrive:EBookArchive/").unwrap(),
        "gdrive:EBookArchive/Marsovac.epub"
    );
}

#[test]
fn bad_drive_targets_are_refused() {
    assert_eq!(
        files::google_drive_target(None, "gdrive:x"),
        Err(TargetError::BadName)
    );
    assert_eq!(
        files::google_drive_target(Some("a"), "  // "),
        Err(TargetError::EmptyRemote)
    );
    assert_eq!(
        TargetError::BadName.message(),
        "downloaded filename is not valid UTF-8"
    );
    assert_eq!(
        TargetError::EmptyRemote.message(),
        "Google Drive remote is empty"
    );
    assert_eq!(
        files::rclone_failure(&b"line one\n  line \xff two\n".to_vec()),
        "rclone failed: line one line \u{fffd} two"
    );
}

#[test]
fn tilde_stands_for_home() {
    assert!(matches!(preferences::expand_tilde("~"), Folder::Home));
    assert!(
        matches!(preferences::expand_tilde("~/books"), Folder::UnderHome(rest) if rest == "books")
    );
    assert!(
        matches!(preferences::expand_tilde("~user"), Folder::Given(path) if path == "~user")
    );
    assert!(matches!(preferences::expand_tilde("/a/~"), Folder::Given(path) if path == "/a/~"));
}

#[test]
fn preferences_have_a_place_and_defaults() {
    assert_eq!(
        preferences::preferences_path(true, true),
        Some((Base::Config, "tui-book-search/preferences.json"))
    );
    assert_eq!(
        preferences::preferences_path(false, true),
        Some((Base::Home, ".config/tui-book-search/preferences.json"))
    );
    assert_eq!(preferences::preferences_path(false, false), None);
    let unset = Preferences::default();
    assert!(unset.disabled_sources.is_empty());
    assert_eq!(unset.download_dir, "downloads");
    assert_eq!(unset.google_drive_remote, "");
    assert_eq!(preferences::default_download_dir(), "downloads");
    assert!(unset.wants("libgen"));
}
