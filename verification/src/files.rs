//! Books on disk: which files are books, which program opens them, and where
//! they are copied to.

use vstd::prelude::*;

use crate::order;
use crate::source::http;
use crate::text;
use crate::words;

verus! {

broadcast use crate::text::lemma_texts_push;

// ---- names ------------------------------------------------------------------------

/// The extension of a file name: what follows the last dot, unless nothing
/// stands before it.
pub open spec fn extension_of(name: Seq<char>) -> Option<Seq<char>> {
    match words::before_last(name, '.') {
        Some(stem) => if stem.len() == 0 || name == ".."@ {
            None
        } else {
            Some(words::pieces(name, seq!['.']).last())
        },
        None => None,
    }
}

/// The extension of a file name, if it has one.
pub fn extension(name: &str) -> (r: Option<String>)
    ensures
        text::text_in(r) == extension_of(name@),
{
    let dots: [char; 1] = ['.'];
    assert(dots@ =~= seq!['.']);
    match words::stem(name, '.') {
        Some(stem) => if stem.as_str().is_empty() || text::same(name, "..") {
            None
        } else {
            Some(words::last_piece(name, &dots))
        },
        None => None,
    }
}

/// The small-letter extensions of books.
pub open spec fn is_book_extension(ext: Seq<char>) -> bool {
    ||| ext == "epub"@
    ||| ext == "pdf"@
    ||| ext == "txt"@
    ||| ext == "html"@
    ||| ext == "htm"@
    ||| ext == "mobi"@
    ||| ext == "azw3"@
    ||| ext == "djvu"@
    ||| ext == "fb2"@
}

/// The file name is that of a book.
pub open spec fn is_book_name(name: Seq<char>) -> bool {
    match extension_of(name) {
        Some(ext) => is_book_extension(text::lowered(ext)),
        None => false,
    }
}

/// Whether the file name is that of a book.
pub fn is_ebook(name: &str) -> (r: bool)
    ensures
        r == is_book_name(name@),
{
    match extension(name) {
        Some(ext) => {
            let lower = text::lower(ext.as_str());
            let ext = lower.as_str();
            text::same(ext, "epub") || text::same(ext, "pdf") || text::same(ext, "txt")
                || text::same(ext, "html") || text::same(ext, "htm") || text::same(ext, "mobi")
                || text::same(ext, "azw3") || text::same(ext, "djvu") || text::same(ext, "fb2")
        },
        None => false,
    }
}

// ---- the library ------------------------------------------------------------------

/// Something found in the download folder.
#[derive(Debug)]
pub struct FoundFile {
    /// By which the caller knows the file.
    pub file: usize,
    pub name: String,
    pub size: u64,
    /// A regular file, as opposed to a folder.
    pub is_file: bool,
}

/// A book on disk.
#[derive(Debug)]
pub struct LibraryEntry {
    /// By which the caller knows the file.
    pub file: usize,
    pub name: String,
    pub size: u64,
}

/// The mathematical counterpart of [`LibraryEntry`].
pub struct LibraryEntryView {
    pub file: usize,
    pub name: Seq<char>,
    pub size: u64,
}

impl View for LibraryEntry {
    type V = LibraryEntryView;

    open spec fn view(&self) -> LibraryEntryView {
        LibraryEntryView { file: self.file, name: self.name@, size: self.size }
    }
}

impl Clone for LibraryEntry {
    fn clone(&self) -> (r: LibraryEntry)
        ensures
            r@ == self@,
    {
        LibraryEntry { file: self.file, name: self.name.clone(), size: self.size }
    }
}

/// What a library holds.
pub open spec fn library_view(list: Seq<LibraryEntry>) -> Seq<LibraryEntryView> {
    Seq::new(list.len(), |i: int| list[i]@)
}

/// The books among the first `n` things found, in the order they were found.
pub open spec fn books_found(found: Seq<FoundFile>, n: int) -> Seq<LibraryEntryView>
    decreases n,
{
    if n <= 0 {
        Seq::empty()
    } else {
        let before = books_found(found, n - 1);
        let file = found[n - 1];
        if file.is_file && is_book_name(file.name@) {
            before.push(LibraryEntryView { file: file.file, name: file.name@, size: file.size })
        } else {
            before
        }
    }
}

/// The names of the books in small letters.
pub open spec fn lower_names(list: Seq<LibraryEntryView>) -> Seq<Seq<char>> {
    Seq::new(list.len(), |i: int| text::lowered(list[i].name))
}

/// The books ordered by name without regard to case; books with the same name
/// keep their order.
pub open spec fn by_name(list: Seq<LibraryEntryView>) -> Seq<LibraryEntryView> {
    order::arranged(list, lower_names(list))
}

/// The library that shows what was found.
pub open spec fn library_of(found: Seq<FoundFile>) -> Seq<LibraryEntryView> {
    by_name(books_found(found, found.len() as int))
}

fn keep_books(found: Vec<FoundFile>) -> (r: Vec<LibraryEntry>)
    ensures
        library_view(r@) == books_found(found@, found@.len() as int),
{
    let ghost all = found@;
    let mut out: Vec<LibraryEntry> = Vec::new();
    assert(library_view(out@) =~= books_found(all, 0));
    for file in it: found
        invariant
            it.seq() == all,
            library_view(out@) == books_found(all, it.index() as int),
    {
        let ghost before = library_view(out@);
        if file.is_file && is_ebook(file.name.as_str()) {
            out.push(LibraryEntry { file: file.file, name: file.name, size: file.size });
            assert(library_view(out@) =~= before.push(out@.last()@));
        }
    }
    out
}

/// The books in the download folder, in the order in which they are listed.
pub fn scan_library(found: Vec<FoundFile>) -> (r: Vec<LibraryEntry>)
    ensures
        library_view(r@) == library_of(found@),
{
    let ghost all = books_found(found@, found@.len() as int);
    let books = keep_books(found);
    let mut keys: Vec<String> = Vec::new();
    let mut i: usize = 0;
    while i < books.len()
        invariant
            i <= books@.len(),
            all == library_view(books@),
            text::texts(keys@) == lower_names(all).take(i as int),
        decreases books@.len() - i,
    {
        keys.push(text::lower(books[i].name.as_str()));
        assert(text::texts(keys@) =~= lower_names(all).take(i + 1));
        i += 1;
    }
    assert(lower_names(all).take(i as int) =~= lower_names(all));
    let places = order::sorted_places(&keys);
    let mut out: Vec<LibraryEntry> = Vec::new();
    let mut k: usize = 0;
    while k < places.len()
        invariant
            k <= places@.len(),
            all == library_view(books@),
            order::places_view(places@) == order::places(lower_names(all)),
            order::sorts(lower_names(all), order::places_view(places@)),
            out@.len() == k,
            forall|j: int| 0 <= j < k ==> #[trigger] out@[j]@ == by_name(all)[j],
        decreases places@.len() - k,
    {
        assert(0 <= order::places_view(places@)[k as int] < all.len());
        out.push(books[places[k]].clone());
        k += 1;
    }
    assert(library_view(out@) =~= by_name(all));
    out
}

proof fn lemma_books_found(found: Seq<FoundFile>, n: int)
    ensures
        forall|i: int|
            0 <= i < books_found(found, n).len() ==> is_book_name(
                (#[trigger] books_found(found, n)[i]).name,
            ),
    decreases n,
{
    if n > 0 {
        lemma_books_found(found, n - 1);
        let before = books_found(found, n - 1);
        assert forall|i: int| 0 <= i < books_found(found, n).len() implies is_book_name(
            (#[trigger] books_found(found, n)[i]).name,
        ) by {
            if i < before.len() {
                assert(books_found(found, n)[i] == before[i]);
            }
        }
    }
}

/// The library lists books only, in the order of their names.
pub proof fn law_library_is_sorted(found: Seq<FoundFile>)
    ensures
        library_of(found).len() == books_found(found, found.len() as int).len(),
        forall|i: int|
            0 <= i < library_of(found).len() ==> is_book_name(
                (#[trigger] library_of(found)[i]).name,
            ),
        forall|i: int, j: int|
            0 <= i < j < library_of(found).len() ==> order::at_most(
                text::lowered((#[trigger] library_of(found)[i]).name),
                text::lowered((#[trigger] library_of(found)[j]).name),
            ),
{
    let list = books_found(found, found.len() as int);
    let library = library_of(found);
    lemma_books_found(found, found.len() as int);
    order::lemma_places(lower_names(list));
    let places = order::places(lower_names(list));
    assert forall|i: int| 0 <= i < library.len() implies is_book_name(
        (#[trigger] library[i]).name,
    ) by {
        assert(0 <= places[i] < list.len());
    }
    assert forall|i: int, j: int| 0 <= i < j < library.len() implies order::at_most(
        text::lowered((#[trigger] library[i]).name),
        text::lowered((#[trigger] library[j]).name),
    ) by {
        assert(0 <= places[i] < list.len() && 0 <= places[j] < list.len());
        assert(order::precedes(lower_names(list), places[i], places[j]));
    }
}

/// Every book that was found is in the library.
pub proof fn law_library_is_complete(found: Seq<FoundFile>, i: int)
    requires
        0 <= i < books_found(found, found.len() as int).len(),
    ensures
        library_of(found).contains(books_found(found, found.len() as int)[i]),
{
    let list = books_found(found, found.len() as int);
    order::lemma_places(lower_names(list));
    let places = order::places(lower_names(list));
    order::lemma_place_listed(lower_names(list), places, i);
    let k = choose|k: int| 0 <= k < places.len() && #[trigger] places[k] == i;
    assert(library_of(found)[k] == list[i]);
}

// ---- readers ----------------------------------------------------------------------

/// The reader Foliate opens files with this name.
pub open spec fn suits_foliate(name: Seq<char>) -> bool {
    match extension_of(name) {
        Some(ext) => {
            let lower = text::lowered(ext);
            ||| lower == "epub"@
            ||| lower == "mobi"@
            ||| lower == "azw3"@
            ||| lower == "fb2"@
        },
        None => false,
    }
}

/// The list with `name` at its end, unless it is there already.
pub open spec fn with_reader(list: Seq<Seq<char>>, name: Seq<char>) -> Seq<Seq<char>> {
    if list.contains(name) {
        list
    } else {
        list.push(name)
    }
}

/// The programs to try, one after the other: the one that the user chose,
/// Foliate if it suits the file, and whatever the desktop opens it with.
pub open spec fn readers_for(chosen: Option<Seq<char>>, name: Seq<char>) -> Seq<Seq<char>> {
    let first = match chosen {
        Some(reader) => if text::trimmed(reader).len() == 0 {
            seq![]
        } else {
            seq![reader]
        },
        None => seq![],
    };
    let second = if suits_foliate(name) {
        with_reader(first, "foliate"@)
    } else {
        first
    };
    with_reader(second, "xdg-open"@)
}

fn fits_foliate(name: &str) -> (r: bool)
    ensures
        r == suits_foliate(name@),
{
    match extension(name) {
        Some(ext) => {
            let lower = text::lower(ext.as_str());
            let ext = lower.as_str();
            text::same(ext, "epub") || text::same(ext, "mobi") || text::same(ext, "azw3")
                || text::same(ext, "fb2")
        },
        None => false,
    }
}

/// The programs to try on a file, one after the other.
pub fn readers(chosen: Option<String>, name: &str) -> (r: Vec<String>)
    ensures
        text::texts(r@) == readers_for(text::text_in(chosen), name@),
{
    let mut out: Vec<String> = Vec::new();
    assert(text::texts(out@) =~= seq![]);
    if let Some(reader) = chosen {
        if !text::trim(reader.as_str()).as_str().is_empty() {
            out.push(reader);
            assert(text::texts(out@) =~= seq![reader@]);
        }
    }
    if fits_foliate(name) && !text::holds(&out, "foliate") {
        out.push("foliate".to_owned());
    }
    if !text::holds(&out, "xdg-open") {
        out.push("xdg-open".to_owned());
    }
    out
}

/// No program is tried twice, and the desktop's own is always among them.
pub proof fn law_readers_are_distinct(chosen: Option<Seq<char>>, name: Seq<char>)
    ensures
        readers_for(chosen, name).no_duplicates(),
        readers_for(chosen, name).contains("xdg-open"@),
{
    let readers = readers_for(chosen, name);
    assert(readers.contains("xdg-open"@)) by {
        if readers.len() > 0 && readers.last() == "xdg-open"@ {
            assert(readers[readers.len() - 1] == "xdg-open"@);
        }
    }
}

/// Why a reader could not be started.
pub fn reader_failure(reader: &str, error: &str) -> (r: String)
    ensures
        r@ == reader@ + ": "@ + error@,
{
    let mut out = reader.to_owned();
    out.append(": ");
    out.append(error);
    out
}

/// Why no reader could be started.
pub fn no_reader(failures: &Vec<String>) -> (r: String)
    ensures
        r@ == "no desktop reader available ("@ + words::joined(text::texts(failures@), ", "@)
            + ")"@,
{
    let mut out = "no desktop reader available (".to_owned();
    out.append(words::join(failures, ", ").as_str());
    out.append(")");
    out
}

// ---- Google Drive -----------------------------------------------------------------

/// Why a file cannot be copied to Google Drive.
#[derive(Debug, Clone, Copy, PartialEq, Eq, Structural)]
pub enum TargetError {
    /// The file has no name, or one that is not valid UTF-8.
    BadName,
    /// The remote is empty.
    EmptyRemote,
}

impl TargetError {
    /// The error in words.
    pub fn message(self) -> (r: &'static str)
        ensures
            r@ == (match self {
                TargetError::BadName => "downloaded filename is not valid UTF-8"@,
                TargetError::EmptyRemote => "Google Drive remote is empty"@,
            }),
    {
        match self {
            TargetError::BadName => "downloaded filename is not valid UTF-8",
            TargetError::EmptyRemote => "Google Drive remote is empty",
        }
    }
}

/// The remote without space around it and without slashes at its end.
pub open spec fn tidy_remote(remote: Seq<char>) -> Seq<char> {
    text::without_trailing(text::trimmed(remote), '/')
}

/// Where a file is copied to on Google Drive.
pub fn google_drive_target(filename: Option<&str>, remote: &str) -> (r: Result<
    String,
    TargetError,
>)
    ensures
        match r {
            Ok(target) => filename is Some && tidy_remote(remote@).len() > 0 && target@
                == tidy_remote(remote@) + "/"@ + filename->0@,
            Err(TargetError::BadName) => filename is None,
            Err(TargetError::EmptyRemote) => filename is Some && tidy_remote(remote@).len() == 0,
        },
{
    let name = match filename {
        Some(name) => name,
        None => return Err(TargetError::BadName),
    };
    let trimmed = text::trim(remote);
    let mut target = text::trim_end_char(trimmed.as_str(), '/');
    if target.as_str().is_empty() {
        return Err(TargetError::EmptyRemote);
    }
    target.append("/");
    target.append(name);
    Ok(target)
}

/// The copied file keeps its name.
pub proof fn law_target_keeps_the_name(remote: Seq<char>, name: Seq<char>)
    ensures
        text::has_suffix(tidy_remote(remote) + "/"@ + name, "/"@ + name),
{
    let target = tidy_remote(remote) + "/"@ + name;
    let end = "/"@ + name;
    assert(target.subrange(target.len() - end.len(), target.len() as int) =~= end);
}

/// What the copying program said when it failed, on one line.
pub fn copy_failure(output: &str) -> (r: String)
    ensures
        r@ == "rclone failed: "@ + words::squeezed(output@),
{
    let mut out = "rclone failed: ".to_owned();
    out.append(words::squeeze(output).as_str());
    out
}

/// What the copying program said when it failed, on one line.
pub fn rclone_failure(output: &Vec<u8>) -> (r: String)
    ensures
        r@ == "rclone failed: "@ + words::squeezed(http::lossy(output@)),
{
    copy_failure(http::lossy_text(output).as_str())
}

// ---- laws -------------------------------------------------------------------------

/// The extension of a file is what stands behind the last dot of its name. A
/// name that begins with its only dot has none, nor has one without a dot.
pub proof fn law_extension(name: &str, r: Option<String>, stem: Seq<char>, ext: Seq<char>)
    requires
        call_ensures(extension, (name,), r),
        !ext.contains('.'),
    ensures
        name@ == stem + seq!['.'] + ext && stem.len() > 0 && (stem != seq!['.'] || ext.len() > 0)
            ==> r is Some && r->0@ == ext,
        name@ == seq!['.'] + ext ==> r is None,
        name@ == ext ==> r is None,
        name@ == seq!['.', '.'] ==> r is None,
{
    let dots = seq!['.'];
    assert(dots[0] == '.');
    reveal_strlit("..");
    assert(".."@ =~= seq!['.', '.']);
    assert forall|i: int| 0 <= i < ext.len() implies !dots.contains(#[trigger] ext[i]) by {
        assert(ext.contains(ext[i]));
    }
    lemma_stem_before(stem, ext);
    lemma_stem_before(Seq::empty(), ext);
    lemma_no_stem(ext);
    words::law_one_piece(ext, dots);
    words::law_stops_divide(stem, '.', ext, dots);
    assert(Seq::<char>::empty() + seq!['.'] + ext =~= seq!['.'] + ext);
    if name@ == stem + seq!['.'] + ext && name@ == ".."@ {
        assert(name@.len() == 2);
        assert(stem.len() == 1 || stem.len() == 2 || stem.len() == 0);
        if stem.len() == 1 {
            assert(stem[0] == name@[0]);
            assert(stem =~= seq!['.']);
        }
    }
}

proof fn lemma_stem_before(stem: Seq<char>, ext: Seq<char>)
    requires
        !ext.contains('.'),
    ensures
        words::before_last(stem + seq!['.'] + ext, '.') == Some(stem),
    decreases ext.len(),
{
    let name = stem + seq!['.'] + ext;
    if ext.len() == 0 {
        assert(name.drop_last() =~= stem);
    } else {
        let front = ext.drop_last();
        assert(ext.contains(ext[ext.len() - 1]));
        if front.contains('.') {
            let i = choose|i: int| 0 <= i < front.len() && front[i] == '.';
            assert(ext[i] == '.');
        }
        lemma_stem_before(stem, front);
        assert(name.drop_last() =~= stem + seq!['.'] + front);
        assert(name.last() == ext[ext.len() - 1]);
    }
}

proof fn lemma_no_stem(ext: Seq<char>)
    requires
        !ext.contains('.'),
    ensures
        words::before_last(ext, '.') is None,
    decreases ext.len(),
{
    if ext.len() > 0 {
        let front = ext.drop_last();
        assert(ext.contains(ext[ext.len() - 1]));
        if front.contains('.') {
            let i = choose|i: int| 0 <= i < front.len() && front[i] == '.';
            assert(ext[i] == '.');
        }
        lemma_no_stem(front);
    }
}

/// A file is a book if its extension, in any letter case, is that of an ebook
/// format that the catalogs offer.
pub proof fn law_books_are_known_by_their_format(name: &str, r: bool, ext: Option<String>)
    requires
        call_ensures(is_ebook, (name,), r),
        call_ensures(extension, (name,), ext),
    ensures
        ext is None ==> !r,
        ext is Some ==> r == (crate::source::FormatView::of_extension(
            text::lowered(ext->0@),
        ) is Some),
        ext is Some && text::lowered(ext->0@) == "epub"@ ==> r,
        ext is Some && text::lowered(ext->0@) == "pdf"@ ==> r,
{
}

/// The library holds every regular file with the name of a book, as it was
/// found.
pub proof fn law_every_book_is_in_the_library(found: Seq<FoundFile>, i: int)
    requires
        0 <= i < found.len(),
        found[i].is_file,
        is_book_name(found[i].name@),
    ensures
        exists|k: int|
            0 <= k < library_of(found).len() && (#[trigger] library_of(found)[k]).file
                == found[i].file && library_of(found)[k].name == found[i].name@
                && library_of(found)[k].size == found[i].size,
{
    let n = found.len() as int;
    lemma_book_kept(found, n, i);
    let list = books_found(found, n);
    let m = choose|m: int|
        0 <= m < list.len() && (#[trigger] list[m]).file == found[i].file && list[m].name
            == found[i].name@ && list[m].size == found[i].size;
    law_library_is_complete(found, m);
    let library = library_of(found);
    let k = choose|k: int| 0 <= k < library.len() && library[k] == list[m];
    assert(library[k].file == found[i].file);
}

proof fn lemma_book_kept(found: Seq<FoundFile>, n: int, i: int)
    requires
        0 <= i < n <= found.len(),
        found[i].is_file,
        is_book_name(found[i].name@),
    ensures
        exists|m: int|
            0 <= m < books_found(found, n).len() && (#[trigger] books_found(found, n)[m]).file
                == found[i].file && books_found(found, n)[m].name == found[i].name@ && books_found(
                found,
                n,
            )[m].size == found[i].size,
    decreases n,
{
    let before = books_found(found, n - 1);
    let now = books_found(found, n);
    if i < n - 1 {
        lemma_book_kept(found, n - 1, i);
        let m = choose|m: int|
            0 <= m < before.len() && (#[trigger] before[m]).file == found[i].file && before[m].name
                == found[i].name@ && before[m].size == found[i].size;
        assert(now[m] == before[m]);
    } else {
        assert(now[before.len() as int].file == found[i].file);
    }
}

/// Everything in the library is a regular file that was found.
pub proof fn law_library_holds_files_only(found: Seq<FoundFile>, k: int)
    requires
        0 <= k < library_of(found).len(),
    ensures
        exists|i: int|
            0 <= i < found.len() && (#[trigger] found[i]).is_file && is_book_name(found[i].name@)
                && library_of(found)[k] == (LibraryEntryView {
                file: found[i].file,
                name: found[i].name@,
                size: found[i].size,
            }),
{
    let list = books_found(found, found.len() as int);
    order::lemma_places(lower_names(list));
    let m = order::places(lower_names(list))[k];
    assert(0 <= m < list.len());
    assert(library_of(found)[k] == list[m]);
    lemma_kept_files(found, found.len() as int, m);
}

proof fn lemma_kept_files(found: Seq<FoundFile>, n: int, m: int)
    requires
        0 <= n <= found.len(),
        0 <= m < books_found(found, n).len(),
    ensures
        exists|i: int|
            0 <= i < n && (#[trigger] found[i]).is_file && is_book_name(found[i].name@)
                && books_found(found, n)[m] == (LibraryEntryView {
                file: found[i].file,
                name: found[i].name@,
                size: found[i].size,
            }),
    decreases n,
{
    let before = books_found(found, n - 1);
    if m < before.len() {
        lemma_kept_files(found, n - 1, m);
        assert(books_found(found, n)[m] == before[m]);
    } else {
        assert(found[n - 1].is_file);
    }
}

/// The programs to try: first the one that the user chose, then Foliate where it
/// can read the file, at last the desktop's own choice.
pub proof fn law_readers(chosen: Option<String>, name: &str, r: Vec<String>, ext: Option<String>)
    requires
        call_ensures(readers, (chosen, name), r),
        call_ensures(extension, (name,), ext),
        chosen is Some ==> chosen->0@ != "foliate"@ && chosen->0@ != "xdg-open"@,
    ensures
        ({
            let named = chosen is Some && text::trimmed(chosen->0@).len() > 0;
            let low = text::lowered(ext->0@);
            let suits = ext is Some && (low == "epub"@ || low == "mobi"@ || low == "azw3"@ || low
                == "fb2"@);
            &&& named && suits ==> text::texts(r@) == seq![
                chosen->0@,
                "foliate"@,
                "xdg-open"@,
            ]
            &&& named && !suits ==> text::texts(r@) == seq![chosen->0@, "xdg-open"@]
            &&& !named && suits ==> text::texts(r@) == seq!["foliate"@, "xdg-open"@]
            &&& !named && !suits ==> text::texts(r@) == seq!["xdg-open"@]
        }),
{
    reveal_strlit("foliate");
    reveal_strlit("xdg-open");
    assert("foliate"@.len() == 7 && "xdg-open"@.len() == 8);
    let named = chosen is Some && text::trimmed(chosen->0@).len() > 0;
    let suits = suits_foliate(name@);
    let first: Seq<Seq<char>> = if named {
        seq![chosen->0@]
    } else {
        seq![]
    };
    assert(!first.contains("foliate"@));
    assert(!first.contains("xdg-open"@));
    let second = if suits {
        with_reader(first, "foliate"@)
    } else {
        first
    };
    if suits {
        assert(second =~= first.push("foliate"@));
        if second.contains("xdg-open"@) {
            let i = choose|i: int| 0 <= i < second.len() && second[i] == "xdg-open"@;
            assert(i < first.len());
            assert(first[i] == second[i]);
        }
    }
    assert(text::texts(r@) =~= second.push("xdg-open"@));
}

/// What the user is told when no program opens the file.
pub proof fn law_reader_failures(
    reader: &str,
    error: &str,
    r: String,
    failures: &Vec<String>,
    all: String,
)
    requires
        call_ensures(reader_failure, (reader, error), r),
        call_ensures(no_reader, (failures,), all),
    ensures
        r@ == reader@ + ": "@ + error@,
        all@ == "no desktop reader available ("@ + words::joined(text::texts(failures@), ", "@)
            + ")"@,
{
}

/// A file is copied below the remote under its own name, with one slash between
/// them, however many the remote ends in.
pub proof fn law_drive_target(
    filename: Option<&str>,
    remote: &str,
    r: Result<String, TargetError>,
    base: Seq<char>,
    slashes: nat,
)
    requires
        call_ensures(google_drive_target, (filename, remote), r),
        text::trimmed(remote@) == base + text::repeated('/', slashes),
        base.len() > 0 ==> base.last() != '/',
    ensures
        filename is None ==> r == Err::<String, TargetError>(TargetError::BadName),
        filename is Some && base.len() == 0 ==> r == Err::<String, TargetError>(
            TargetError::EmptyRemote,
        ),
        filename is Some && base.len() > 0 ==> (r matches Ok(target) && target@ == base + seq!['/']
            + filename->0@),
{
    lemma_slashes_go(base, slashes);
    reveal_strlit("/");
    assert("/"@ =~= seq!['/']);
}

proof fn lemma_slashes_go(base: Seq<char>, slashes: nat)
    requires
        base.len() > 0 ==> base.last() != '/',
    ensures
        text::without_trailing(base + text::repeated('/', slashes), '/') == base,
    decreases slashes,
{
    let whole = base + text::repeated('/', slashes);
    if slashes == 0 {
        assert(whole =~= base);
    } else {
        lemma_slashes_go(base, (slashes - 1) as nat);
        assert(whole.drop_last() =~= base + text::repeated('/', (slashes - 1) as nat));
        assert(whole.last() == '/');
    }
}

/// What the user is told when a file cannot be copied.
pub proof fn law_copy_failures(
    error: TargetError,
    told: &'static str,
    output: &str,
    r: String,
    bytes: &Vec<u8>,
    copied: String,
)
    requires
        call_ensures(TargetError::message, (error,), told),
        call_ensures(copy_failure, (output,), r),
        call_ensures(rclone_failure, (bytes,), copied),
    ensures
        error == TargetError::BadName ==> told@ == "downloaded filename is not valid UTF-8"@,
        error == TargetError::EmptyRemote ==> told@ == "Google Drive remote is empty"@,
        r@ == "rclone failed: "@ + words::squeezed(output@),
        copied@ == "rclone failed: "@ + words::squeezed(http::lossy(bytes@)),
{
}

/// What is listed is the library of what was found.
pub proof fn law_library_is_listed(found: Vec<FoundFile>, r: Vec<LibraryEntry>)
    requires
        call_ensures(scan_library, (found,), r),
    ensures
        library_view(r@) == library_of(found@),
        r@.len() <= found@.len(),
{
    law_library_is_sorted(found@);
    lemma_books_count(found@, found@.len() as int);
    assert(library_view(r@).len() == r@.len());
}

proof fn lemma_books_count(found: Seq<FoundFile>, n: int)
    requires
        0 <= n,
    ensures
        books_found(found, n).len() <= n,
    decreases n,
{
    if n > 0 {
        lemma_books_count(found, n - 1);
    }
}

/// The program that the user chose is always tried first, whichever it is.
pub proof fn law_chosen_reader_is_first(chosen: Option<String>, name: &str, r: Vec<String>)
    requires
        call_ensures(readers, (chosen, name), r),
        chosen is Some,
        text::trimmed(chosen->0@).len() > 0,
    ensures
        r@.len() > 0,
        r@[0]@ == chosen->0@,
        chosen->0@ != "xdg-open"@ ==> r@.last()@ == "xdg-open"@,
{
    let all = text::texts(r@);
    assert(all.len() == r@.len());
    let first = seq![chosen->0@];
    let second = if suits_foliate(name@) {
        with_reader(first, "foliate"@)
    } else {
        first
    };
    assert(second[0] == chosen->0@);
    assert(all == with_reader(second, "xdg-open"@));
    assert(all[0] == r@[0]@);
    assert(all[all.len() - 1] == r@[r@.len() - 1]@);
    if chosen->0@ != "xdg-open"@ && second.contains("xdg-open"@) {
        reveal_strlit("foliate");
        reveal_strlit("xdg-open");
        assert("foliate"@.len() == 7 && "xdg-open"@.len() == 8);
        let i = choose|i: int| 0 <= i < second.len() && second[i] == "xdg-open"@;
        assert(i == 0 || second[i] == "foliate"@);
    }
}

} // verus!
