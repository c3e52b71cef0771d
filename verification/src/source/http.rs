//! The rules of a plain HTTP download: what the file is called, when to try
//! again, and what is written down about a failure.

use vstd::prelude::*;
use vstd::utf8::*;

use crate::number;
use crate::source::{Book, BookView, Download, DownloadView};
use crate::text;
use crate::words;

verus! {

broadcast use crate::text::lemma_texts_push;

// ---- file names -----------------------------------------------------------

/// What `char::is_alphanumeric` says of a character beyond ASCII.
pub uninterp spec fn wide_alphanumeric(c: char) -> bool;

/// A letter or a digit.
pub open spec fn alphanumeric(c: char) -> bool {
    if c as u32 >= 0x80 {
        wide_alphanumeric(c)
    } else {
        '0' <= c <= '9' || 'A' <= c <= 'Z' || 'a' <= c <= 'z'
    }
}

/// `char::is_alphanumeric`: a fixed property of the character, by the Unicode
/// tables of the standard library. In ASCII the letters and digits have it; of
/// other characters it is only claimed that the answer depends on nothing else.
pub assume_specification[ char::is_alphanumeric ](c: char) -> (r: bool)
    ensures
        r == alphanumeric(c),
        c as u32 >= 0x80 ==> r == wide_alphanumeric(c),
;

/// `c` where it is safe in a file name, else an underscore.
pub open spec fn safe_char(c: char) -> char {
    if alphanumeric(c) || c == ' ' || c == '-' {
        c
    } else {
        '_'
    }
}

/// `s` with every unsafe character replaced.
pub open spec fn safe_text(s: Seq<char>) -> Seq<char> {
    Seq::new(s.len(), |i: int| safe_char(s[i]))
}

/// The name of the file that a download is saved under.
pub open spec fn file_name(book: BookView, download: DownloadView) -> Seq<char> {
    text::shortened(text::trimmed(safe_text(book.title)), 80) + " ["@ + book.source + "-"@
        + book.id + "]."@ + download.format.extension()
}

/// The name of the file that a download is saved under.
pub fn filename(book: &Book, download: &Download) -> (r: String)
    ensures
        r@ == file_name(book@, download@),
{
    let mut safe = String::new();
    for c in it: book.title.as_str().chars()
        invariant
            it.seq() == book.title@,
            safe@ == safe_text(book.title@).take(it.index() as int),
    {
        if c.is_alphanumeric() || c == ' ' || c == '-' {
            safe.push(c);
        } else {
            safe.push('_');
        }
    }
    assert(safe@ =~= safe_text(book.title@));
    let trimmed = text::trim(safe.as_str());
    let mut out = text::take_chars(trimmed.as_str(), 80);
    out.append(" [");
    out.append(book.source);
    out.append("-");
    out.append(book.id.as_str());
    out.append("].");
    out.append(download.format.extension());
    out
}

/// A file is saved in the folder it is meant for: its name has no slash, unless
/// the catalog put one into the book's own name there.
pub proof fn law_file_names_stay_in_the_folder(book: BookView, download: DownloadView)
    requires
        !book.source.contains('/'),
        !book.id.contains('/'),
    ensures
        !file_name(book, download).contains('/'),
{
    let safe = safe_text(book.title);
    text::lemma_trimmed_part(safe);
    let title = text::shortened(text::trimmed(safe), 80);
    assert(!title.contains('/')) by {
        if title.contains('/') {
            let k = choose|k: int| 0 <= k < title.len() && title[k] == '/';
            let (i, j) = choose|i: int, j: int|
                0 <= i <= j <= safe.len() && text::trimmed(safe) == #[trigger] safe.subrange(i, j);
            assert(title[k] == safe.subrange(i, j)[k]);
            assert(safe[i + k] == safe_char(book.title[i + k]));
        }
    }
    reveal_strlit(" [");
    reveal_strlit("-");
    reveal_strlit("].");
    reveal_strlit("epub");
    reveal_strlit("pdf");
    reveal_strlit("txt");
    reveal_strlit("html");
    reveal_strlit("mobi");
    reveal_strlit("azw3");
    reveal_strlit("djvu");
    reveal_strlit("fb2");
    reveal_strlit("torrent");
    reveal_strlit("bin");
    let extension = download.format.extension();
    assert(!extension.contains('/'));
    assert(!" ["@.contains('/'));
    assert(!"-"@.contains('/'));
    assert(!"]."@.contains('/'));
    lemma_without_slash(title, " ["@);
    lemma_without_slash(title + " ["@, book.source);
    lemma_without_slash(title + " ["@ + book.source, "-"@);
    lemma_without_slash(title + " ["@ + book.source + "-"@, book.id);
    lemma_without_slash(title + " ["@ + book.source + "-"@ + book.id, "]."@);
    lemma_without_slash(title + " ["@ + book.source + "-"@ + book.id + "]."@, extension);
}

proof fn lemma_without_slash(a: Seq<char>, b: Seq<char>)
    requires
        !a.contains('/'),
        !b.contains('/'),
    ensures
        !(a + b).contains('/'),
{
    if (a + b).contains('/') {
        let k = choose|k: int| 0 <= k < (a + b).len() && (a + b)[k] == '/';
        if k < a.len() {
            assert(a[k] == '/');
        } else {
            assert(b[k - a.len()] == '/');
        }
    }
}

// ---- attempts ---------------------------------------------------------------

/// What to do after a response to a download request.
#[derive(Debug, Clone, Copy, PartialEq, Eq, Structural)]
pub enum Verdict {
    /// The body is the file.
    Accept,
    /// Ask again after a pause.
    Retry { wait_ms: u64 },
    /// Give up.
    Fail,
}

/// The status codes of a successful response.
pub open spec fn is_success(status: u16) -> bool {
    200 <= status < 300
}

/// The status codes of an error on the server's side.
pub open spec fn is_server_error(status: u16) -> bool {
    500 <= status < 600
}

/// How many times a file is asked for.
pub const MAX_ATTEMPTS: u64 = 3;

/// The rule of the plain download: success is taken, an error of the server is
/// asked again until the last attempt, anything else ends the download.
pub open spec fn verdict(attempt: u64, status: u16) -> Verdict {
    if is_success(status) {
        Verdict::Accept
    } else if is_server_error(status) && attempt < MAX_ATTEMPTS {
        Verdict::Retry { wait_ms: (300 * attempt) as u64 }
    } else {
        Verdict::Fail
    }
}

/// What to do after the response with `status` to attempt number `attempt`.
pub fn after_response(attempt: u64, status: u16) -> (r: Verdict)
    ensures
        r == verdict(attempt, status),
{
    if 200 <= status && status < 300 {
        Verdict::Accept
    } else if 500 <= status && status < 600 && attempt < MAX_ATTEMPTS {
        Verdict::Retry { wait_ms: 300 * attempt }
    } else {
        Verdict::Fail
    }
}

/// The last attempt is never followed by another one, whatever the server
/// answers.
pub proof fn law_attempts_end(attempt: u64, status: u16)
    requires
        attempt >= MAX_ATTEMPTS,
    ensures
        !(verdict(attempt, status) is Retry),
{
}

/// Only an error of the server is asked again, and each pause is longer than
/// the one before.
pub proof fn law_pauses_grow(attempt: u64, status: u16, next_status: u16)
    requires
        attempt < u64::MAX,
    ensures
        verdict(attempt, status) is Retry ==> is_server_error(status),
        verdict(attempt, status) is Retry && verdict((attempt + 1) as u64, next_status) is Retry
            ==> verdict(attempt, status)->wait_ms < verdict(
            (attempt + 1) as u64,
            next_status,
        )->wait_ms,
{
}

/// How far a transfer has come.
#[derive(Debug, Clone, Copy, PartialEq, Eq)]
pub struct Transfer {
    pub seen: u64,
    pub total: Option<u64>,
}

impl Transfer {
    /// A transfer that has not begun. The length that the response announces
    /// counts before the one that the catalog reported.
    pub fn new(content_length: Option<u64>, size: Option<u64>) -> (r: Transfer)
        ensures
            r.seen == 0,
            r.total == (if content_length is Some {
                content_length
            } else {
                size
            }),
    {
        Transfer {
            seen: 0,
            total: if content_length.is_some() {
                content_length
            } else {
                size
            },
        }
    }

    /// Count a chunk of `n` bytes.
    pub fn advance(&mut self, n: u64)
        requires
            old(self).seen + n <= u64::MAX,
        ensures
            final(self).seen == old(self).seen + n,
            final(self).total == old(self).total,
    {
        self.seen = self.seen + n;
    }
}

// ---- sizes ------------------------------------------------------------------

/// How a server answered the question for a file's size.
#[derive(Debug, Clone, Copy, PartialEq, Eq)]
pub enum Head {
    /// No answer came.
    Unreachable,
    /// A response with this status came, which announced this length.
    Answered { status: u16, length: Option<u64> },
}

/// The download with the size that the server announced.
pub open spec fn sized(download: DownloadView, head: Head) -> DownloadView {
    match head {
        Head::Answered { status, length } if is_success(status) => DownloadView {
            size: length,
            ..download
        },
        _ => download,
    }
}

/// One answer about one download of one book.
#[derive(Debug, Clone, Copy, PartialEq, Eq)]
pub struct SizeReply {
    pub book: usize,
    pub download: usize,
    pub head: Head,
}

/// The books after one answer.
pub open spec fn with_size(books: Seq<BookView>, reply: SizeReply) -> Seq<BookView> {
    let at = reply.book as int;
    let which = reply.download as int;
    if at < books.len() && which < books[at].downloads.len() {
        books.update(
            at,
            BookView {
                downloads: books[at].downloads.update(
                    which,
                    sized(books[at].downloads[which], reply.head),
                ),
                ..books[at]
            },
        )
    } else {
        books
    }
}

/// The books after all answers, in the order they came in.
pub open spec fn with_sizes(books: Seq<BookView>, replies: Seq<SizeReply>) -> Seq<BookView>
    decreases replies.len(),
{
    if replies.len() == 0 {
        books
    } else {
        with_size(with_sizes(books, replies.drop_last()), replies.last())
    }
}

/// Answers about different downloads may come in either order.
pub proof fn law_answers_commute(books: Seq<BookView>, a: SizeReply, b: SizeReply)
    requires
        a.book != b.book || a.download != b.download,
    ensures
        with_size(with_size(books, a), b) == with_size(with_size(books, b), a),
{
    let ab = with_size(with_size(books, a), b);
    let ba = with_size(with_size(books, b), a);
    assert(ab.len() == ba.len());
    assert forall|i: int| 0 <= i < ab.len() implies ab[i] == ba[i] by {
        assert(ab[i].downloads =~= ba[i].downloads);
    }
    assert(ab =~= ba);
}

/// No answer adds, removes or moves a book or a download, and none changes
/// anything but a size.
pub proof fn law_sizes_keep_books(books: Seq<BookView>, replies: Seq<SizeReply>)
    ensures
        with_sizes(books, replies).len() == books.len(),
        forall|i: int|
            #![trigger with_sizes(books, replies)[i]]
            0 <= i < books.len() ==> {
                let after = with_sizes(books, replies)[i];
                &&& after == (BookView { downloads: after.downloads, ..books[i] })
                &&& after.downloads.len() == books[i].downloads.len()
                &&& forall|j: int|
                    #![trigger after.downloads[j]]
                    0 <= j < books[i].downloads.len() ==> after.downloads[j] == (DownloadView {
                        size: after.downloads[j].size,
                        ..books[i].downloads[j]
                    })
            },
    decreases replies.len(),
{
    if replies.len() > 0 {
        law_sizes_keep_books(books, replies.drop_last());
    }
}

/// Write the sizes that the servers announced into the books.
pub fn apply_sizes(books: Vec<Book>, replies: &Vec<SizeReply>) -> (r: Vec<Book>)
    ensures
        crate::source::books_view(r@) == with_sizes(crate::source::books_view(books@), replies@),
{
    let ghost before = crate::source::books_view(books@);
    let mut books = books;
    let mut i: usize = 0;
    assert(replies@.take(0) =~= Seq::<SizeReply>::empty());
    while i < replies.len()
        invariant
            i <= replies@.len(),
            crate::source::books_view(books@) == with_sizes(before, replies@.take(i as int)),
        decreases replies@.len() - i,
    {
        let reply: SizeReply = replies[i];
        assert(replies@.take(i + 1).drop_last() =~= replies@.take(i as int));
        let ghost old_books = books@;
        if reply.book < books.len() && reply.download < books[reply.book].downloads.len() {
            if let Head::Answered { status, length } = reply.head {
                if 200 <= status && status < 300 {
                    books[reply.book].downloads[reply.download].size = length;
                }
            }
        }
        proof {
            let was = crate::source::books_view(old_books);
            let now = crate::source::books_view(books@);
            let expected = with_size(was, reply);
            assert(now.len() == expected.len());
            assert forall|k: int| 0 <= k < now.len() implies now[k] == expected[k] by {
                assert(now[k].downloads =~= expected[k].downloads);
            }
            assert(now =~= expected);
        }
        i += 1;
    }
    assert(replies@.take(i as int) =~= replies@);
    books
}

/// One download whose size is to be asked for.
#[derive(Debug)]
pub struct SizeRequest {
    pub book: usize,
    pub download: usize,
    pub url: String,
}

/// The mathematical counterpart of [`SizeRequest`].
pub struct SizeRequestView {
    pub book: int,
    pub download: int,
    pub url: Seq<char>,
}

impl View for SizeRequest {
    type V = SizeRequestView;

    open spec fn view(&self) -> SizeRequestView {
        SizeRequestView { book: self.book as int, download: self.download as int, url: self.url@ }
    }
}

/// What a list of requests holds.
pub open spec fn requests_view(list: Seq<SizeRequest>) -> Seq<SizeRequestView> {
    Seq::new(list.len(), |i: int| list[i]@)
}

/// The requests for the first `count` downloads of the book at place `at`.
pub open spec fn book_requests(book: BookView, at: int, count: int) -> Seq<SizeRequestView> {
    Seq::new(
        count as nat,
        |d: int| SizeRequestView { book: at, download: d, url: book.downloads[d].url },
    )
}

/// The smaller of two numbers.
pub open spec fn least(a: int, b: int) -> int {
    if a <= b {
        a
    } else {
        b
    }
}

/// The requests for the first `n` books, at most `per_book` for each.
pub open spec fn all_requests(books: Seq<BookView>, per_book: int, n: int) -> Seq<SizeRequestView>
    decreases n,
{
    if n <= 0 {
        Seq::empty()
    } else {
        all_requests(books, per_book, n - 1) + book_requests(
            books[n - 1],
            n - 1,
            least(books[n - 1].downloads.len() as int, per_book),
        )
    }
}

/// The downloads whose sizes are to be asked for: the first `per_book` of each
/// book, in order.
pub fn size_requests(books: &Vec<Book>, per_book: usize) -> (r: Vec<SizeRequest>)
    ensures
        requests_view(r@) == all_requests(
            crate::source::books_view(books@),
            per_book as int,
            books@.len() as int,
        ),
{
    let ghost all = crate::source::books_view(books@);
    let mut out: Vec<SizeRequest> = Vec::new();
    let mut i: usize = 0;
    while i < books.len()
        invariant
            i <= books@.len(),
            all == crate::source::books_view(books@),
            requests_view(out@) == all_requests(all, per_book as int, i as int),
        decreases books@.len() - i,
    {
        let offered: usize = books[i].downloads.len();
        let count: usize = if offered <= per_book {
            offered
        } else {
            per_book
        };
        let ghost base = requests_view(out@);
        let mut d: usize = 0;
        while d < count
            invariant
                d <= count <= offered,
                i < books@.len(),
                offered == books@[i as int].downloads@.len(),
                all == crate::source::books_view(books@),
                requests_view(out@) == base + book_requests(all[i as int], i as int, d as int),
            decreases count - d,
        {
            assert(all[i as int].downloads[d as int] == books@[i as int].downloads@[d as int]@);
            let ghost before = out@;
            out.push(
                SizeRequest { book: i, download: d, url: books[i].downloads[d].url.clone() },
            );
            assert(requests_view(out@) =~= requests_view(before).push(out@.last()@));
            assert(requests_view(out@) =~= base + book_requests(all[i as int], i as int, d + 1));
            d += 1;
        }
        i += 1;
    }
    out
}

// ---- failures -----------------------------------------------------------------

/// How much of a failed response's body is kept.
pub const PREVIEW_BYTES: usize = 4096;

/// `body` with as much of `chunk` as the preview has room for.
pub open spec fn previewed(body: Seq<u8>, chunk: Seq<u8>) -> Seq<u8> {
    body + chunk.take(least(chunk.len() as int, PREVIEW_BYTES - body.len()))
}

/// Append as much of `chunk` to the preview as there is room for.
pub fn extend_preview(body: &mut Vec<u8>, chunk: &[u8])
    requires
        old(body)@.len() <= PREVIEW_BYTES,
    ensures
        final(body)@ == previewed(old(body)@, chunk@),
        final(body)@.len() <= PREVIEW_BYTES,
{
    let ghost before = body@;
    let mut i: usize = 0;
    assert(before + chunk@.take(0) =~= before);
    while i < chunk.len() && body.len() < PREVIEW_BYTES
        invariant
            i <= chunk@.len(),
            before.len() <= PREVIEW_BYTES,
            body@ == before + chunk@.take(i as int),
            body@.len() <= PREVIEW_BYTES,
        decreases chunk@.len() - i,
    {
        body.push(chunk[i]);
        assert(body@ =~= before + chunk@.take(i + 1));
        i += 1;
    }
    assert(body@ =~= previewed(before, chunk@));
}

/// The text that `String::from_utf8_lossy` makes of some bytes.
pub uninterp spec fn lossy(bytes: Seq<u8>) -> Seq<char>;

/// `String::from_utf8_lossy`: the text that the bytes encode, with replacement
/// characters for what is no UTF-8. Valid UTF-8 is kept as it is; where the
/// replacements go is not stated.
#[verifier::external_body]
pub(crate) fn lossy_text(bytes: &[u8]) -> (r: String)
    ensures
        r@ == lossy(bytes@),
        valid_utf8(bytes@) ==> encode_utf8(r@) == bytes@,
{
    String::from_utf8_lossy(bytes).into_owned()
}

/// `s` on one line.
pub open spec fn one_line(s: Seq<char>) -> Seq<char> {
    text::replaced(s, seq!['\r', '\n'], ' ')
}

/// `s` on one line.
pub fn on_one_line(s: &str) -> (r: String)
    ensures
        r@ == one_line(s@),
{
    let breaks: [char; 2] = ['\r', '\n'];
    assert(breaks@ =~= seq!['\r', '\n']);
    text::replace(s, &breaks, ' ')
}

/// The preview of a failed response's body, on one line.
pub fn preview_text(body: &[u8]) -> (r: String)
    ensures
        r@ == one_line(lossy(body@)),
{
    on_one_line(lossy_text(body).as_str())
}

/// The response headers that are worth writing down.
pub open spec fn header_names() -> Seq<Seq<char>> {
    seq!["content-type"@, "server"@, "cf-ray"@, "retry-after"@, "location"@]
}

/// The response headers that are worth writing down.
pub fn failure_headers() -> (r: Vec<&'static str>)
    ensures
        r@.len() == 5,
        forall|i: int| 0 <= i < 5 ==> #[trigger] r@[i]@ == header_names()[i],
{
    let mut names: Vec<&'static str> = Vec::new();
    names.push("content-type");
    names.push("server");
    names.push("cf-ray");
    names.push("retry-after");
    names.push("location");
    names
}

/// The headers among the first `n` that have a value, as `name=value`.
pub open spec fn header_entries(values: Seq<Option<Seq<char>>>, n: int) -> Seq<Seq<char>>
    decreases n,
{
    if n <= 0 {
        Seq::empty()
    } else {
        let before = header_entries(values, n - 1);
        match values[n - 1] {
            Some(value) => before.push(header_names()[n - 1] + "="@ + value),
            None => before,
        }
    }
}

/// The values of the headers named by [`failure_headers`] on one line; a
/// missing header is left out.
pub fn header_line(values: &Vec<Option<String>>) -> (r: String)
    requires
        values@.len() == 5,
    ensures
        r@ == words::joined(header_entries(text::texts_in(values@), 5), "; "@),
{
    let names = failure_headers();
    let ghost all = text::texts_in(values@);
    let mut entries: Vec<String> = Vec::new();
    let mut i: usize = 0;
    assert(text::texts(entries@) =~= header_entries(all, 0));
    while i < 5
        invariant
            i <= 5,
            values@.len() == 5,
            names@.len() == 5,
            forall|k: int| 0 <= k < 5 ==> #[trigger] names@[k]@ == header_names()[k],
            all == text::texts_in(values@),
            text::texts(entries@) == header_entries(all, i as int),
        decreases 5 - i,
    {
        assert(all[i as int] == text::text_in(values@[i as int]));
        if let Some(value) = &values[i] {
            let mut entry = names[i].to_owned();
            entry.append("=");
            entry.append(value.as_str());
            entries.push(entry);
        }
        i += 1;
    }
    words::join(&entries, "; ")
}

/// What is written down about a failed download.
pub open spec fn record(
    timestamp: u64,
    book: BookView,
    status: u16,
    url: Seq<char>,
    headers: Seq<char>,
    preview: Seq<char>,
) -> Seq<char> {
    "time_unix="@ + number::decimal(timestamp as nat) + "\nsource="@ + book.source + "\nbook_id="@
        + book.id + "\ntitle="@ + one_line(book.title) + "\nstatus="@ + number::decimal(
        status as nat,
    ) + "\nurl="@ + url + "\nheaders="@ + headers + "\nbody_preview="@ + preview + "\n---\n"@
}

/// What is written down about a failed download.
pub fn failure_record(
    timestamp: u64,
    book: &Book,
    status: u16,
    url: &str,
    headers: &str,
    preview: &str,
) -> (r: String)
    ensures
        r@ == record(timestamp, book@, status, url@, headers@, preview@),
{
    let mut out = "time_unix=".to_owned();
    out.append(number::to_decimal(timestamp).as_str());
    out.append("\nsource=");
    out.append(book.source);
    out.append("\nbook_id=");
    out.append(book.id.as_str());
    out.append("\ntitle=");
    out.append(on_one_line(book.title.as_str()).as_str());
    out.append("\nstatus=");
    out.append(number::to_decimal(status as u64).as_str());
    out.append("\nurl=");
    out.append(url);
    out.append("\nheaders=");
    out.append(headers);
    out.append("\nbody_preview=");
    out.append(preview);
    out.append("\n---\n");
    out
}

/// What the user is told about a failed download.
pub open spec fn message(status: u16, log: Seq<char>, error: Option<Seq<char>>) -> Seq<char> {
    let head = "download returned HTTP "@ + number::decimal(status as nat);
    match error {
        None => head + "; details saved to "@ + log,
        Some(error) => head + "; could not write "@ + log + ": "@ + error,
    }
}

/// What the user is told about a failed download, which was written down at
/// `log` unless that failed with `error`.
pub fn failure_message(status: u16, log: &str, error: Option<String>) -> (r: String)
    ensures
        r@ == message(status, log@, text::text_in(error)),
{
    let mut out = "download returned HTTP ".to_owned();
    out.append(number::to_decimal(status as u64).as_str());
    match error {
        None => {
            out.append("; details saved to ");
            out.append(log);
        },
        Some(error) => {
            out.append("; could not write ");
            out.append(log);
            out.append(": ");
            out.append(error.as_str());
        },
    }
    out
}

/// What is written down about a download that could not be asked for.
pub open spec fn diagnostic(
    timestamp: u64,
    book: BookView,
    stage: Seq<char>,
    url: Seq<char>,
    details: Seq<char>,
) -> Seq<char> {
    "time_unix="@ + number::decimal(timestamp as nat) + "\nsource="@ + book.source + "\nbook_id="@
        + book.id + "\ntitle="@ + one_line(book.title) + "\nstage="@ + stage + "\nurl="@ + url
        + "\ndetails="@ + one_line(details) + "\n---\n"@
}

/// What is written down about a download that could not be asked for, because
/// the step `stage` failed.
pub fn diagnostic_record(
    timestamp: u64,
    book: &Book,
    stage: &str,
    url: &str,
    details: &str,
) -> (r: String)
    ensures
        r@ == diagnostic(timestamp, book@, stage@, url@, details@),
{
    let mut out = "time_unix=".to_owned();
    out.append(number::to_decimal(timestamp).as_str());
    out.append("\nsource=");
    out.append(book.source);
    out.append("\nbook_id=");
    out.append(book.id.as_str());
    out.append("\ntitle=");
    out.append(on_one_line(book.title.as_str()).as_str());
    out.append("\nstage=");
    out.append(stage);
    out.append("\nurl=");
    out.append(url);
    out.append("\ndetails=");
    out.append(on_one_line(details).as_str());
    out.append("\n---\n");
    out
}

/// What the user is told about a download that could not be asked for, which
/// was written down at `log` unless that failed with `error`.
pub fn diagnostic_message(stage: &str, log: &str, error: Option<String>) -> (r: String)
    ensures
        r@ == (match text::text_in(error) {
            None => stage@ + " failed; details saved to "@ + log@,
            Some(error) => stage@ + " failed; could not write "@ + log@ + ": "@ + error,
        }),
{
    let mut out = stage.to_owned();
    match error {
        None => {
            out.append(" failed; details saved to ");
            out.append(log);
        },
        Some(error) => {
            out.append(" failed; could not write ");
            out.append(log);
            out.append(": ");
            out.append(error.as_str());
        },
    }
    out
}

// ---- laws -------------------------------------------------------------------------

/// A file is named after its book: eighty characters of the title at most, the
/// catalog and the book's number in brackets, and the extension of the format.
pub proof fn law_file_name(book: &Book, download: &Download, r: String, title: Seq<char>)
    requires
        call_ensures(filename, (book, download), r),
        title.len() == book.title@.len(),
        forall|i: int|
            0 <= i < title.len() ==> #[trigger] title[i] == (if alphanumeric(book.title@[i])
                || book.title@[i] == ' ' || book.title@[i] == '-' {
                book.title@[i]
            } else {
                '_'
            }),
    ensures
        ({
            let kept = text::trimmed(title);
            let short = if kept.len() <= 80 {
                kept
            } else {
                kept.take(80)
            };
            r@ == short + seq![' ', '['] + book.source@ + seq!['-'] + book.id@ + seq![']', '.']
                + download.format@.extension()
        }),
{
    assert(safe_text(book.title@) =~= title);
    reveal_strlit(" [");
    reveal_strlit("-");
    reveal_strlit("].");
    assert(" ["@ =~= seq![' ', '[']);
    assert("-"@ =~= seq!['-']);
    assert("]."@ =~= seq![']', '.']);
    let kept = text::trimmed(title);
    if kept.len() > 80 {
        assert(kept.subrange(0, 80) =~= kept.take(80));
    }
}

/// A successful response is taken. An error on the server's side is asked again
/// after 300 and then after 600 milliseconds, and the third attempt is the last;
/// any other response ends the download.
pub proof fn law_verdicts(attempt: u64, status: u16, r: Verdict)
    requires
        call_ensures(after_response, (attempt, status), r),
    ensures
        200 <= status <= 299 ==> r == Verdict::Accept,
        500 <= status <= 599 && attempt == 1 ==> r == (Verdict::Retry { wait_ms: 300 }),
        500 <= status <= 599 && attempt == 2 ==> r == (Verdict::Retry { wait_ms: 600 }),
        500 <= status <= 599 && attempt < 3 ==> r == (Verdict::Retry {
            wait_ms: (300 * attempt) as u64,
        }),
        500 <= status <= 599 && attempt >= 3 ==> r == Verdict::Fail,
        status < 200 || 300 <= status <= 499 || status >= 600 ==> r == Verdict::Fail,
{
}

/// A transfer begins with nothing, and its length is the one that the response
/// announces, else the one that the catalog did.
pub proof fn law_transfers(content_length: Option<u64>, size: Option<u64>, r: Transfer)
    requires
        call_ensures(Transfer::new, (content_length, size), r),
    ensures
        r.seen == 0,
        content_length is Some ==> r.total == content_length,
        content_length is None ==> r.total == size,
{
}

/// An answer about a download gives it the announced size, if it is a successful
/// one; every other answer leaves all sizes alone, and so does an answer about
/// another download.
pub proof fn law_answers_set_sizes(
    books: Seq<BookView>,
    reply: SizeReply,
    status: u16,
    length: Option<u64>,
    b: int,
    d: int,
)
    requires
        0 <= b < books.len(),
        0 <= d < books[b].downloads.len(),
    ensures
        ({
            let after = with_size(books, reply)[b].downloads[d];
            let before = books[b].downloads[d];
            &&& reply.head == (Head::Answered { status, length }) && 200 <= status <= 299
                && reply.book == b && reply.download == d ==> after.size == length
            &&& reply.head == (Head::Answered { status, length }) && !(200 <= status <= 299)
                ==> after == before
            &&& reply.head is Unreachable ==> after == before
            &&& reply.book != b || reply.download != d ==> after == before
            &&& after.url == before.url && after.format == before.format
        }),
{
}

/// The answers are taken one after the other.
pub proof fn law_answers_follow_each_other(
    books: Seq<BookView>,
    replies: Seq<SizeReply>,
    reply: SizeReply,
)
    ensures
        with_sizes(books, seq![]) == books,
        with_sizes(books, replies.push(reply)) == with_size(with_sizes(books, replies), reply),
{
    assert(replies.push(reply).drop_last() =~= replies);
}

/// Every question for a size is about one of the first downloads of a book, and
/// is asked at the address of that download.
pub proof fn law_questions_are_about_downloads(
    books: &Vec<Book>,
    per_book: usize,
    r: Vec<SizeRequest>,
    k: int,
)
    requires
        call_ensures(size_requests, (books, per_book), r),
        0 <= k < r@.len(),
    ensures
        r@[k].book < books@.len(),
        r@[k].download < per_book,
        r@[k].download < books@[r@[k].book as int].downloads@.len(),
        r@[k].url@ == books@[r@[k].book as int].downloads@[r@[k].download as int].url@,
{
    let all = crate::source::books_view(books@);
    let requests = requests_view(r@);
    assert(requests[k] == r@[k]@);
    lemma_request(all, per_book as int, books@.len() as int, k);
    let b = r@[k].book as int;
    assert(all[b] == books@[b]@);
    assert(all[b].downloads[r@[k].download as int] == books@[b].downloads@[r@[k].download as int]@);
}

proof fn lemma_request(books: Seq<BookView>, per_book: int, n: int, k: int)
    requires
        0 <= per_book,
        0 <= n <= books.len(),
        0 <= k < all_requests(books, per_book, n).len(),
    ensures
        ({
            let request = all_requests(books, per_book, n)[k];
            &&& 0 <= request.book < n
            &&& 0 <= request.download < per_book
            &&& request.download < books[request.book].downloads.len()
            &&& request.url == books[request.book].downloads[request.download].url
        }),
    decreases n,
{
    if n > 0 {
        let before = all_requests(books, per_book, n - 1);
        if k < before.len() {
            lemma_request(books, per_book, n - 1, k);
            assert(all_requests(books, per_book, n)[k] == before[k]);
        }
    }
}

/// Each of the first downloads of every book is asked about.
pub proof fn law_all_first_downloads_are_asked(
    books: &Vec<Book>,
    per_book: usize,
    r: Vec<SizeRequest>,
    b: int,
    d: int,
)
    requires
        call_ensures(size_requests, (books, per_book), r),
        0 <= b < books@.len(),
        0 <= d < books@[b].downloads@.len(),
        d < per_book,
    ensures
        exists|k: int|
            0 <= k < r@.len() && (#[trigger] r@[k]).book == b && r@[k].download == d,
{
    let all = crate::source::books_view(books@);
    let requests = requests_view(r@);
    assert(all[b] == books@[b]@);
    lemma_asked(all, per_book as int, books@.len() as int, b, d);
    let k = choose|k: int|
        0 <= k < requests.len() && (#[trigger] requests[k]).book == b && requests[k].download == d;
    assert(requests[k] == r@[k]@);
}

proof fn lemma_asked(books: Seq<BookView>, per_book: int, n: int, b: int, d: int)
    requires
        0 <= b < n <= books.len(),
        0 <= d < books[b].downloads.len(),
        d < per_book,
    ensures
        exists|k: int|
            0 <= k < all_requests(books, per_book, n).len() && (#[trigger] all_requests(
                books,
                per_book,
                n,
            )[k]).book == b && all_requests(books, per_book, n)[k].download == d,
    decreases n,
{
    let before = all_requests(books, per_book, n - 1);
    let now = all_requests(books, per_book, n);
    if b < n - 1 {
        lemma_asked(books, per_book, n - 1, b, d);
        let k = choose|k: int|
            0 <= k < before.len() && (#[trigger] before[k]).book == b && before[k].download == d;
        assert(now[k] == before[k]);
    } else {
        let k = before.len() as int + d;
        assert(now[k].book == b && now[k].download == d);
    }
}

/// Four thousand and ninety-six bytes of a failed response are kept, from its
/// start on.
pub proof fn law_previews(body: Seq<u8>, chunk: Seq<u8>)
    requires
        body.len() <= 4096,
    ensures
        previewed(body, chunk).len() <= 4096,
        body.len() + chunk.len() <= 4096 ==> previewed(body, chunk) == body + chunk,
        body.len() + chunk.len() > 4096 ==> previewed(body, chunk).len() == 4096,
        previewed(body, chunk) == (body + chunk).take(previewed(body, chunk).len() as int),
{
    assert(previewed(body, chunk) =~= (body + chunk).take(previewed(body, chunk).len() as int));
    if body.len() + chunk.len() <= 4096 {
        assert(previewed(body, chunk) =~= body + chunk);
    }
}

/// A text on one line has a blank for every line end, and is otherwise the same.
pub proof fn law_one_line(s: &str, r: String, i: int)
    requires
        call_ensures(on_one_line, (s,), r),
        0 <= i < s@.len(),
    ensures
        r@.len() == s@.len(),
        s@[i] == '\n' || s@[i] == '\r' ==> r@[i] == ' ',
        s@[i] != '\n' && s@[i] != '\r' ==> r@[i] == s@[i],
{
    let breaks = seq!['\r', '\n'];
    assert(breaks[0] == '\r' && breaks[1] == '\n');
    if breaks.contains(s@[i]) {
        let k = choose|k: int| 0 <= k < breaks.len() && breaks[k] == s@[i];
        assert(k == 0 || k == 1);
    }
}

/// Of a failed response, five headers are written down in this order.
pub proof fn law_headers(r: Vec<&'static str>)
    requires
        call_ensures(failure_headers, (), r),
    ensures
        r@.len() == 5,
        r@[0]@ == "content-type"@,
        r@[1]@ == "server"@,
        r@[2]@ == "cf-ray"@,
        r@[3]@ == "retry-after"@,
        r@[4]@ == "location"@,
{
    assert(r@[0]@ == header_names()[0]);
    assert(r@[1]@ == header_names()[1]);
    assert(r@[2]@ == header_names()[2]);
    assert(r@[3]@ == header_names()[3]);
    assert(r@[4]@ == header_names()[4]);
}

/// The headers that are there stand on one line, each with its name; those that
/// are missing are left out.
pub proof fn law_header_line(values: &Vec<Option<String>>, r: String)
    requires
        call_ensures(header_line, (values,), r),
        values@.len() == 5,
    ensures
        values@[0] is Some && values@[1] is None && values@[2] is None && values@[3] is None
            && values@[4] is None ==> r@ == "content-type"@ + "="@ + values@[0]->0@,
        values@[0] is Some && values@[1] is Some && values@[2] is None && values@[3] is None
            && values@[4] is None ==> r@ == "content-type"@ + "="@ + values@[0]->0@ + "; "@ + (
        "server"@ + "="@ + values@[1]->0@),
        values@[0] is None && values@[1] is None && values@[2] is None && values@[3] is None
            && values@[4] is Some ==> r@ == "location"@ + "="@ + values@[4]->0@,
        values@[0] is None && values@[1] is None && values@[2] is None && values@[3] is None
            && values@[4] is None ==> r@.len() == 0,
{
    let all = text::texts_in(values@);
    assert(all[0] == text::text_in(values@[0]));
    assert(all[1] == text::text_in(values@[1]));
    assert(all[2] == text::text_in(values@[2]));
    assert(all[3] == text::text_in(values@[3]));
    assert(all[4] == text::text_in(values@[4]));
    reveal_with_fuel(header_entries, 6);
    reveal_with_fuel(words::joined, 3);
    let entries = header_entries(all, 5);
    if values@[2] is None && values@[3] is None && values@[4] is None {
        if values@[0] is Some && values@[1] is None {
            assert(entries =~= seq!["content-type"@ + "="@ + values@[0]->0@]);
        } else if values@[0] is Some && values@[1] is Some {
            assert(entries =~= seq![
                "content-type"@ + "="@ + values@[0]->0@,
                "server"@ + "="@ + values@[1]->0@,
            ]);
            assert(entries.drop_last() =~= seq!["content-type"@ + "="@ + values@[0]->0@]);
        }
    }
    if values@[0] is None && values@[1] is None && values@[2] is None && values@[3] is None
        && values@[4] is Some {
        assert(entries =~= seq!["location"@ + "="@ + values@[4]->0@]);
    }
}

/// What is written down about a failed download: a line for each of its parts,
/// in this order, and a line that ends it.
pub proof fn law_failure_record(
    timestamp: u64,
    book: &Book,
    status: u16,
    url: &str,
    headers: &str,
    preview: &str,
    r: String,
)
    requires
        call_ensures(failure_record, (timestamp, book, status, url, headers, preview), r),
    ensures
        r@ == "time_unix="@ + number::decimal(timestamp as nat) + "\nsource="@ + book.source@
            + "\nbook_id="@ + book.id@ + "\ntitle="@ + one_line(book.title@) + "\nstatus="@
            + number::decimal(status as nat) + "\nurl="@ + url@ + "\nheaders="@ + headers@
            + "\nbody_preview="@ + preview@ + "\n---\n"@,
{
}

/// What is written down about a download that could not be asked for.
pub proof fn law_diagnostic_record(
    timestamp: u64,
    book: &Book,
    stage: &str,
    url: &str,
    details: &str,
    r: String,
)
    requires
        call_ensures(diagnostic_record, (timestamp, book, stage, url, details), r),
    ensures
        r@ == "time_unix="@ + number::decimal(timestamp as nat) + "\nsource="@ + book.source@
            + "\nbook_id="@ + book.id@ + "\ntitle="@ + one_line(book.title@) + "\nstage="@
            + stage@ + "\nurl="@ + url@ + "\ndetails="@ + one_line(details@) + "\n---\n"@,
{
}

/// What the user is told about a failed download, and about one that could not
/// be asked for: where the details are, or why they could not be written down.
pub proof fn law_failures_are_told(
    status: u16,
    stage: &str,
    log: &str,
    error: Option<String>,
    failed: String,
    unasked: String,
)
    requires
        call_ensures(failure_message, (status, log, error), failed),
        call_ensures(diagnostic_message, (stage, log, error), unasked),
    ensures
        error is None ==> failed@ == "download returned HTTP "@ + number::decimal(status as nat)
            + "; details saved to "@ + log@,
        error is Some ==> failed@ == "download returned HTTP "@ + number::decimal(status as nat)
            + "; could not write "@ + log@ + ": "@ + error->0@,
        error is None ==> unasked@ == stage@ + " failed; details saved to "@ + log@,
        error is Some ==> unasked@ == stage@ + " failed; could not write "@ + log@ + ": "@
            + error->0@,
{
}

/// The preview of a response is the text of its bytes on one line.
pub proof fn law_preview_text(body: &[u8], r: String)
    requires
        call_ensures(preview_text, (body,), r),
    ensures
        r@ == one_line(lossy(body@)),
{
}

/// The bytes of a transfer add up, and its length stays.
pub proof fn law_transfers_add_up(transfer: &mut Transfer, n: u64, r: ())
    requires
        call_ensures(Transfer::advance, (transfer, n), r),
    ensures
        final(transfer).seen == old(transfer).seen + n,
        final(transfer).total == old(transfer).total,
{
}

/// The preview of a body grows by as much as there is room for.
pub proof fn law_previews_grow(body: &mut Vec<u8>, chunk: &[u8], r: ())
    requires
        call_ensures(extend_preview, (body, chunk), r),
        old(body)@.len() <= 4096,
    ensures
        final(body)@.len() <= 4096,
        final(body)@ == (old(body)@ + chunk@).take(final(body)@.len() as int),
        old(body)@.len() + chunk@.len() <= 4096 ==> final(body)@ == old(body)@ + chunk@,
        old(body)@.len() + chunk@.len() > 4096 ==> final(body)@.len() == 4096,
{
    law_previews(old(body)@, chunk@);
}

/// The books get the sizes that the answers gave, in the order of the answers.
pub proof fn law_sizes_are_applied(books: Vec<Book>, replies: &Vec<SizeReply>, r: Vec<Book>)
    requires
        call_ensures(apply_sizes, (books, replies), r),
    ensures
        crate::source::books_view(r@) == with_sizes(crate::source::books_view(books@), replies@),
{
}

/// Each header that is there is written as its name, an equals sign and its
/// value, behind those that come before it.
pub proof fn law_header_entries(values: Seq<Option<Seq<char>>>, n: int)
    requires
        0 < n <= 5,
    ensures
        header_entries(values, 0).len() == 0,
        values[n - 1] is None ==> header_entries(values, n) == header_entries(values, n - 1),
        values[n - 1] is Some ==> header_entries(values, n) == header_entries(values, n - 1).push(
            header_names()[n - 1] + seq!['='] + values[n - 1]->0,
        ),
{
    reveal_strlit("=");
    assert("="@ =~= seq!['=']);
}

} // verus!
