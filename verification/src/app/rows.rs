//! What the screen says: the rows of the lists, the legends and the texts
//! around them.

use vstd::prelude::*;

use crate::app::{App, AppView, Area, Entry, EntryView, Field, Mode, SourceEntry, Status};
use crate::app::StatusView;
use crate::files;
use crate::files::{LibraryEntry, LibraryEntryView};
use crate::number;
use crate::source::{BookView, Download, DownloadView, Source};
use crate::text;
use crate::theme;
use crate::theme::{Span, SpanView, Style, Tone};
use crate::words;

verus! {

broadcast use {
    crate::text::lemma_texts_push,
    crate::theme::lemma_spans_push,
    crate::theme::lemma_spans_empty,
};

/// A text with a style.
pub open spec fn styled(content: Seq<char>, style: Style) -> SpanView {
    SpanView { content, style }
}

/// A text in the terminal's own colors.
pub open spec fn raw(content: Seq<char>) -> SpanView {
    styled(content, Style::plain())
}

/// Dimmed text.
pub open spec fn hint(content: Seq<char>) -> SpanView {
    styled(content, Style::of(Tone::Muted))
}

/// The name of a key.
pub open spec fn key(content: Seq<char>) -> SpanView {
    styled(content, Style::strong(Tone::Accent))
}

fn plain(content: &str) -> (r: Span)
    ensures
        r@ == raw(content@),
{
    theme::styled(content.to_owned(), Style::plain())
}

fn toned(content: &str, style: Style) -> (r: Span)
    ensures
        r@ == styled(content@, style),
{
    theme::styled(content.to_owned(), style)
}

// ---- two columns ------------------------------------------------------------------

/// `right` against the right edge, and `left` clipped if the two collide.
pub open spec fn justified(
    left: Seq<SpanView>,
    right: Seq<SpanView>,
    width: nat,
) -> Seq<SpanView> {
    let right_cells = theme::run_cells(right);
    let room: nat = if width >= right_cells + 2 {
        (width - right_cells - 2) as nat
    } else {
        0
    };
    let kept = theme::clipped(left, room);
    let used = theme::run_cells(kept) + right_cells;
    let gap: nat = if width >= used {
        (width - used) as nat
    } else {
        0
    };
    kept.push(raw(text::repeated(' ', gap))) + right
}

fn append_spans(out: &mut Vec<Span>, more: Vec<Span>)
    ensures
        theme::spans_view(final(out)@) == theme::spans_view(old(out)@) + theme::spans_view(more@),
{
    let ghost start = theme::spans_view(out@);
    let ghost all = theme::spans_view(more@);
    assert(start + all.take(0) =~= start);
    for span in it: more
        invariant
            it.seq() == more@,
            all == theme::spans_view(more@),
            theme::spans_view(out@) == start + all.take(it.index() as int),
    {
        let ghost i = it.index() as int;
        out.push(span);
        assert(start + all.take(i + 1) =~= (start + all.take(i)).push(span@));
    }
    assert(all.take(more@.len() as int) =~= all);
}

/// Push `right` against the right edge, clipping `left` if the two collide.
pub fn justify(left: Vec<Span>, right: Vec<Span>, width: usize) -> (r: Vec<Span>)
    ensures
        theme::spans_view(r@) == justified(
            theme::spans_view(left@),
            theme::spans_view(right@),
            width as nat,
        ),
{
    let wide: u128 = width as u128;
    let right_width: u128 = theme::run_width(&right);
    let room: u128 = if wide >= 2 && wide - 2 >= right_width {
        wide - 2 - right_width
    } else {
        0
    };
    let mut spans = theme::clip_wide(left, room);
    let left_width: u128 = theme::run_width(&spans);
    let gap: usize = if wide >= right_width && wide - right_width >= left_width {
        (wide - right_width - left_width) as usize
    } else {
        0
    };
    spans.push(theme::styled(text::repeat(' ', gap), Style::plain()));
    append_spans(&mut spans, right);
    spans
}

proof fn lemma_run_joined(a: Seq<SpanView>, b: Seq<SpanView>)
    ensures
        theme::run_cells(a + b) == theme::run_cells(a) + theme::run_cells(b),
    decreases b.len(),
{
    if b.len() == 0 {
        assert(a + b =~= a);
    } else {
        assert((a + b).drop_last() =~= a + b.drop_last());
        lemma_run_joined(a, b.drop_last());
    }
}

/// A row takes exactly its width, unless the right side alone is wider; and the
/// right side keeps its place whatever is on the left.
pub proof fn law_rows_fill_their_width(left: Seq<SpanView>, right: Seq<SpanView>, width: nat)
    requires
        theme::all_even(left),
    ensures
        theme::run_cells(justified(left, right, width)) == (if width >= theme::run_cells(right) {
            width
        } else {
            theme::run_cells(right)
        }),
        justified(left, right, width).len() >= right.len(),
        justified(left, right, width).skip(
            justified(left, right, width).len() - right.len(),
        ) == right,
{
    let right_cells = theme::run_cells(right);
    let room: nat = if width >= right_cells + 2 {
        (width - right_cells - 2) as nat
    } else {
        0
    };
    let kept = theme::clipped(left, room);
    theme::law_clip_fits(left, room);
    let used = theme::run_cells(kept) + right_cells;
    let gap: nat = if width >= used {
        (width - used) as nat
    } else {
        0
    };
    let middle = kept.push(raw(text::repeated(' ', gap)));
    lemma_run_joined(middle, right);
    assert(middle.drop_last() =~= kept);
    assert(theme::all_plain(text::repeated(' ', gap)));
    assert(justified(left, right, width) == middle + right);
    assert((middle + right).skip(middle.len() as int) =~= right);
}

// ---- figures ----------------------------------------------------------------------

/// Numbers for a row that take division: each is prepared by the caller.
#[derive(Debug)]
pub struct Figures {
    /// For every file of the book, its size divided by its unit.
    pub sizes: Vec<String>,
    /// What has arrived, divided by its unit.
    pub seen: String,
    /// What has arrived, in eighths of a cell of the bar.
    pub eighths: usize,
    /// What has arrived, in percent.
    pub percent: String,
    /// The time since the download was queued, in nanoseconds.
    pub elapsed: u128,
    /// What arrives in a second.
    pub speed: String,
    /// The whole seconds that are left.
    pub remaining: u64,
    /// A fraction of a second more is left.
    pub partial: bool,
}

/// The mathematical counterpart of [`Figures`].
pub struct FiguresView {
    pub sizes: Seq<Seq<char>>,
    pub seen: Seq<char>,
    pub eighths: usize,
    pub percent: Seq<char>,
    pub elapsed: u128,
    pub speed: Seq<char>,
    pub remaining: u64,
    pub partial: bool,
}

impl View for Figures {
    type V = FiguresView;

    open spec fn view(&self) -> FiguresView {
        FiguresView {
            sizes: text::texts(self.sizes@),
            seen: self.seen@,
            eighths: self.eighths,
            percent: self.percent@,
            elapsed: self.elapsed,
            speed: self.speed@,
            remaining: self.remaining,
            partial: self.partial,
        }
    }
}

// ---- the right-hand column of a result --------------------------------------------

/// Cells given to the progress bar itself.
pub const BAR: usize = 14;

/// The format of the download is that of an earlier one.
pub open spec fn format_repeats(downloads: Seq<DownloadView>, at: int) -> bool {
    exists|j: int| 0 <= j < at && (#[trigger] downloads[j]).format == downloads[at].format
}

/// What is said of a download: its format, and its size where that is known.
pub open spec fn download_text(download: DownloadView, quotient: Seq<char>) -> Seq<char> {
    match download.size {
        Some(size) => download.format.label() + " "@ + theme::size_text(size, quotient),
        None => download.format.label(),
    }
}

/// What is said of the first `n` downloads, each format once.
pub open spec fn download_texts(
    downloads: Seq<DownloadView>,
    quotients: Seq<Seq<char>>,
    n: int,
) -> Seq<Seq<char>>
    decreases n,
{
    if n <= 0 {
        seq![]
    } else if format_repeats(downloads, n - 1) {
        download_texts(downloads, quotients, n - 1)
    } else {
        download_texts(downloads, quotients, n - 1).push(
            download_text(downloads[n - 1], quotients[n - 1]),
        )
    }
}

/// The formats of a book on one line.
pub open spec fn formats_line(downloads: Seq<DownloadView>, quotients: Seq<Seq<char>>) -> Seq<
    char,
> {
    words::joined(download_texts(downloads, quotients, downloads.len() as int), "  "@)
}

/// A known length: a real bar, a percentage, a rate and an ETA.
pub open spec fn known_length(seen: u64, total: u64, figures: FiguresView) -> Seq<SpanView> {
    theme::bar(figures.eighths as nat, BAR as nat, Tone::Warn).push(
        styled(
            " "@ + text::padded_left(figures.percent, 3) + "%"@,
            Style::strong(Tone::Warn),
        ),
    ).push(
        hint(
            "  "@ + text::padded_left(
                theme::rate_text(seen, figures.elapsed, figures.speed),
                9,
            ),
        ),
    ).push(
        hint(
            "  "@ + text::padded_left(
                theme::eta_text(
                    seen,
                    total,
                    figures.elapsed,
                    figures.remaining,
                    figures.partial,
                ),
                5,
            ),
        ),
    )
}

/// No known length: a sweep, rather than a pretence of knowing.
pub open spec fn unknown_length(seen: u64, frame: u64, figures: FiguresView) -> Seq<SpanView> {
    theme::pulsing((frame as usize) as nat, BAR as nat, Tone::Warn).push(
        styled(
            " "@ + text::padded_left(theme::size_text(seen, figures.seen), 9),
            Style::strong(Tone::Warn),
        ),
    ).push(
        hint(
            "  "@ + text::padded_left(
                theme::rate_text(seen, figures.elapsed, figures.speed),
                9,
            ),
        ),
    )
}

impl AppView {
    /// The right-hand column of a result row: available formats, or live
    /// progress.
    pub open spec fn status_cell(self, entry: EntryView, figures: FiguresView) -> Seq<SpanView> {
        match entry.status {
            StatusView::Idle => seq![
                styled(
                    formats_line(entry.book.downloads, figures.sizes),
                    Style::of(Tone::Blue),
                ),
            ],
            StatusView::Queued => seq![
                theme::spinner(self.spinner, Style::of(Tone::Warn)),
                styled(" queued"@, Style::of(Tone::Warn)),
            ],
            StatusView::Downloading { seen, total } => match total {
                Some(total) => if total > 0 {
                    known_length(seen, total, figures)
                } else {
                    unknown_length(seen, self.frame, figures)
                },
                None => unknown_length(seen, self.frame, figures),
            },
            StatusView::Uploading => seq![
                theme::spinner(self.spinner, Style::of(Tone::Blue)),
                styled(" uploading to Drive"@, Style::of(Tone::Blue)),
            ],
            StatusView::Done { name, .. } => seq![
                styled("✓ "@ + name, Style::of(Tone::Good)),
            ],
            StatusView::Failed(error) => seq![
                styled("✗ "@ + error, Style::of(Tone::Bad)),
            ],
        }
    }
}

fn describe_downloads(downloads: &Vec<Download>, quotients: &Vec<String>) -> (r: String)
    requires
        quotients@.len() == downloads@.len(),
    ensures
        r@ == formats_line(
            crate::source::downloads_view(downloads@),
            text::texts(quotients@),
        ),
{
    let ghost all = crate::source::downloads_view(downloads@);
    let ghost sizes = text::texts(quotients@);
    let mut out: Vec<String> = Vec::new();
    let mut i: usize = 0;
    assert(text::texts(out@) =~= download_texts(all, sizes, 0));
    while i < downloads.len()
        invariant
            i <= downloads@.len(),
            quotients@.len() == downloads@.len(),
            all == crate::source::downloads_view(downloads@),
            sizes == text::texts(quotients@),
            text::texts(out@) == download_texts(all, sizes, i as int),
        decreases downloads@.len() - i,
    {
        assert(all[i as int] == downloads@[i as int]@);
        let mut repeats = false;
        let mut j: usize = 0;
        while j < i
            invariant
                j <= i < downloads@.len(),
                all == crate::source::downloads_view(downloads@),
                repeats == (exists|k: int|
                    0 <= k < j && (#[trigger] all[k]).format == all[i as int].format),
            decreases i - j,
        {
            assert(all[j as int] == downloads@[j as int]@);
            assert(all[i as int] == downloads@[i as int]@);
            if downloads[j].format.is(&downloads[i].format) {
                repeats = true;
            }
            j += 1;
        }
        if !repeats {
            let mut said = downloads[i].format.label();
            if let Some(size) = downloads[i].size {
                said.append(" ");
                said.append(theme::human_size(size, quotients[i].as_str()).as_str());
            }
            out.push(said);
        }
        i += 1;
    }
    words::join(&out, "  ")
}

fn padded(before: &str, content: &str, width: usize) -> (r: String)
    ensures
        r@ == before@ + text::padded_left(content@, width as nat),
{
    let mut out = before.to_owned();
    out.append(text::pad_left(content, width).as_str());
    out
}

fn show_known_length(seen: u64, total: u64, figures: &Figures) -> (r: Vec<Span>)
    ensures
        theme::spans_view(r@) == known_length(seen, total, figures@),
{
    let mut spans = theme::progress_bar(figures.eighths, BAR, Tone::Warn);
    let mut percent = padded(" ", figures.percent.as_str(), 3);
    percent.append("%");
    spans.push(theme::styled(percent, Style::strong(Tone::Warn)));
    let rate = theme::rate(seen, figures.elapsed, figures.speed.as_str());
    spans.push(theme::styled(padded("  ", rate.as_str(), 9), Style::of(Tone::Muted)));
    let eta = theme::eta(seen, total, figures.elapsed, figures.remaining, figures.partial);
    spans.push(theme::styled(padded("  ", eta.as_str(), 5), Style::of(Tone::Muted)));
    spans
}

fn show_unknown_length(seen: u64, frame: u64, figures: &Figures) -> (r: Vec<Span>)
    ensures
        theme::spans_view(r@) == unknown_length(seen, frame, figures@),
{
    let mut spans = theme::pulse(frame, BAR, Tone::Warn);
    let size = theme::human_size(seen, figures.seen.as_str());
    spans.push(theme::styled(padded(" ", size.as_str(), 9), Style::strong(Tone::Warn)));
    let rate = theme::rate(seen, figures.elapsed, figures.speed.as_str());
    spans.push(theme::styled(padded("  ", rate.as_str(), 9), Style::of(Tone::Muted)));
    spans
}

fn with_glyph(glyph: &str, content: &str) -> (r: String)
    ensures
        r@ == glyph@ + content@,
{
    let mut out = glyph.to_owned();
    out.append(content);
    out
}

impl App {
    /// The right-hand column of a result row: available formats, or live
    /// progress.
    pub fn status_cell(&self, entry: &Entry, figures: &Figures) -> (r: Vec<Span>)
        requires
            entry.status is Idle ==> figures.sizes@.len() == entry.book.downloads@.len(),
        ensures
            theme::spans_view(r@) == self@.status_cell(entry@, figures@),
    {
        let mut spans: Vec<Span> = Vec::new();
        match &entry.status {
            Status::Idle => {
                let formats = describe_downloads(&entry.book.downloads, &figures.sizes);
                spans.push(theme::styled(formats, Style::of(Tone::Blue)));
            },
            Status::Queued => {
                spans.push(theme::spin(self.spinner, Style::of(Tone::Warn)));
                spans.push(toned(" queued", Style::of(Tone::Warn)));
            },
            Status::Downloading { seen, total } => {
                spans = match total {
                    Some(total) => if *total > 0 {
                        show_known_length(*seen, *total, figures)
                    } else {
                        show_unknown_length(*seen, self.frame, figures)
                    },
                    None => show_unknown_length(*seen, self.frame, figures),
                };
            },
            Status::Uploading => {
                spans.push(theme::spin(self.spinner, Style::of(Tone::Blue)));
                spans.push(toned(" uploading to Drive", Style::of(Tone::Blue)));
            },
            Status::Done(saved) => {
                spans.push(
                    theme::styled(with_glyph("✓ ", saved.name.as_str()), Style::of(Tone::Good)),
                );
            },
            Status::Failed(error) => {
                spans.push(
                    theme::styled(with_glyph("✗ ", error.as_str()), Style::of(Tone::Bad)),
                );
            },
        }
        assert(theme::spans_view(spans@) =~= self@.status_cell(entry@, figures@));
        spans
    }
}

// ---- rows -------------------------------------------------------------------------

/// The length of the longest name among the first `n` catalogs.
pub open spec fn longest_name(sources: Seq<SourceEntry>, n: int) -> nat
    decreases n,
{
    if n <= 0 {
        0
    } else {
        let before = longest_name(sources, n - 1);
        let len = sources[n - 1].source.tag().len();
        if len > before {
            len
        } else {
            before
        }
    }
}

/// What a book's row says of it: mark, catalog, title, author and language.
pub open spec fn book_spans(book: BookView, marked: bool, tag_width: nat) -> Seq<SpanView> {
    let spans = seq![
        if marked {
            styled("✓ "@, Style::strong(Tone::Good))
        } else {
            styled("· "@, Style::of(Tone::Faint))
        },
        styled(text::padded_right(book.source, tag_width) + "  "@, Style::of(Tone::Violet)),
        raw(book.title),
        hint("  "@ + book.author_line()),
    ];
    match book.language {
        Some(language) => spans.push(styled("  "@ + language, Style::of(Tone::Blue))),
        None => spans,
    }
}

impl AppView {
    /// Widest catalog name, so every title starts at the same column.
    pub open spec fn tag_width(self) -> nat {
        longest_name(self.sources, self.sources.len() as int)
    }

    /// A result row: mark, catalog, title and author left; live status right.
    pub open spec fn row(self, entry: EntryView, figures: FiguresView, width: nat) -> Seq<
        SpanView,
    > {
        justified(
            book_spans(entry.book, entry.marked, self.tag_width()),
            self.status_cell(entry, figures),
            width,
        )
    }
}

impl App {
    /// Widest catalog name, so every title starts at the same column.
    pub fn tag_width(&self) -> (r: usize)
        ensures
            r == self@.tag_width(),
    {
        let mut widest: usize = 0;
        let mut i: usize = 0;
        while i < self.sources.len()
            invariant
                i <= self.sources@.len(),
                widest == longest_name(self.sources@, i as int),
            decreases self.sources@.len() - i,
        {
            let len: usize = self.sources[i].source.name().unicode_len();
            if len > widest {
                widest = len;
            }
            i += 1;
        }
        widest
    }

    /// A result row: mark, catalog, title and author left; live status right.
    pub fn row(&self, entry: &Entry, figures: &Figures, width: usize) -> (r: Vec<Span>)
        requires
            entry.status is Idle ==> figures.sizes@.len() == entry.book.downloads@.len(),
        ensures
            theme::spans_view(r@) == self@.row(entry@, figures@, width as nat),
    {
        let book = &entry.book;
        let mut left: Vec<Span> = Vec::new();
        left.push(
            if entry.marked {
                toned("✓ ", Style::strong(Tone::Good))
            } else {
                toned("· ", Style::of(Tone::Faint))
            },
        );
        let mut tag = text::pad_right(book.source, self.tag_width());
        tag.append("  ");
        left.push(theme::styled(tag, Style::of(Tone::Violet)));
        left.push(plain(book.title.as_str()));
        left.push(
            theme::styled(
                with_glyph("  ", book.author_line().as_str()),
                Style::of(Tone::Muted),
            ),
        );
        if let Some(language) = &book.language {
            left.push(
                theme::styled(with_glyph("  ", language.as_str()), Style::of(Tone::Blue)),
            );
        }
        assert(theme::spans_view(left@) =~= book_spans(
            entry@.book,
            entry.marked,
            self@.tag_width(),
        ));
        justify(left, self.status_cell(entry, figures), width)
    }
}

/// A row of the downloaded books: filename on the left, format and size lined
/// up on the right.
pub open spec fn library_spans(
    entry: LibraryEntryView,
    quotient: Seq<char>,
    width: nat,
) -> Seq<SpanView> {
    let extension = match files::extension_of(entry.name) {
        Some(extension) => text::raised(extension),
        None => "?"@,
    };
    justified(
        seq![raw(entry.name)],
        seq![
            styled("["@ + extension + "]"@, Style::of(Tone::Blue)),
            hint("  "@ + text::padded_left(theme::size_text(entry.size, quotient), 9)),
        ],
        width,
    )
}

/// A row of the downloaded books. `quotient` is the size divided by its unit.
pub fn library_row(entry: &LibraryEntry, quotient: &str, width: usize) -> (r: Vec<Span>)
    ensures
        theme::spans_view(r@) == library_spans(entry@, quotient@, width as nat),
{
    let extension = match files::extension(entry.name.as_str()) {
        Some(extension) => text::upper(extension.as_str()),
        None => "?".to_owned(),
    };
    let mut shown = with_glyph("[", extension.as_str());
    shown.append("]");
    let size = theme::human_size(entry.size, quotient);
    let mut left: Vec<Span> = Vec::new();
    left.push(plain(entry.name.as_str()));
    let mut right: Vec<Span> = Vec::new();
    right.push(theme::styled(shown, Style::of(Tone::Blue)));
    right.push(theme::styled(padded("  ", size.as_str(), 9), Style::of(Tone::Muted)));
    assert(theme::spans_view(left@) =~= seq![raw(entry.name@)]);
    let ghost expected = match files::extension_of(entry.name@) {
        Some(extension) => text::raised(extension),
        None => "?"@,
    };
    assert(theme::spans_view(right@) =~= seq![
        styled("["@ + expected + "]"@, Style::of(Tone::Blue)),
        hint("  "@ + text::padded_left(theme::size_text(entry.size, quotient@), 9)),
    ]);
    justify(left, right, width)
}

// ---- legends and lines ------------------------------------------------------------

impl AppView {
    /// The legend below the results.
    pub open spec fn results_legend(self) -> Seq<SpanView> {
        seq![
            hint(" search "@),
            key("/"@),
            hint("  mark "@),
            key("space"@),
            hint("  get "@),
            key("d"@),
            hint("  open "@),
            key("o"@),
            hint("  quit "@),
            key("q"@),
            hint("   page"@),
            styled(
                " "@ + (number::decimal(self.page as nat) + crate::app::replies::of_total(
                    self.total_pages,
                )) + " "@,
                Style::strong(Tone::AccentBright),
            ),
            key("p"@),
            hint("/"@),
            key("n"@),
            hint(" "@),
        ]
    }

    /// What is said of a catalog, lit when it will be queried.
    pub open spec fn chip(self, i: int) -> SpanView {
        let entry = self.sources[i];
        let content = " "@ + (if entry.enabled {
            "●"@
        } else {
            "○"@
        }) + " "@ + entry.source.tag() + " "@;
        if self.mode == Mode::Sources && i == self.source_cursor {
            styled(
                content,
                (Style { fg: Some(Tone::OnAccent), bg: Some(Tone::AccentBright), bold: true }),
            )
        } else if entry.enabled {
            styled(content, Style::of(Tone::Good))
        } else {
            styled(content, Style::of(Tone::Faint))
        }
    }

    /// The line of catalogs.
    pub open spec fn source_line(self) -> Seq<SpanView> {
        seq![hint("Sources"@)] + Seq::new(self.sources.len(), |i: int| self.chip(i)) + seq![
            hint(
                if self.mode == Mode::Sources {
                    "  space toggles, esc done"@
                } else if self.mode == Mode::Search {
                    "  (ctrl+s to change)"@
                } else {
                    "  (s to change)"@
                },
            ),
        ]
    }

    /// A book's download is under way.
    pub open spec fn is_active(self, i: int) -> bool {
        self.entries[i].status is Queued || self.entries[i].status is Downloading
            || self.entries[i].status is Uploading
    }

    /// How many of the first `n` books are being downloaded.
    pub open spec fn active(self, n: int) -> nat
        decreases n,
    {
        if n <= 0 {
            0
        } else {
            self.active(n - 1) + (if self.is_active(n - 1) {
                1nat
            } else {
                0nat
            })
        }
    }

    /// What the app is waiting on right now, if anything.
    pub open spec fn phase(self) -> Option<Seq<char>> {
        let active = self.active(self.entries.len() as int);
        if self.pending > 0 {
            Some(
                if self.entries.len() == 0 {
                    "Searching"@
                } else {
                    "Waiting for the rest"@
                },
            )
        } else if active == 0 {
            None
        } else if active == 1 {
            Some("Downloading"@)
        } else {
            Some("Downloading "@ + number::decimal(active) + " books"@)
        }
    }

    /// Spinner plus whatever the app is waiting on, then the free-text status.
    pub open spec fn status_line(self) -> Seq<SpanView> {
        match self.phase() {
            Some(phase) => seq![
                theme::spinner(self.spinner, Style::strong(Tone::Accent)),
                styled(" "@ + phase, Style::strong(Tone::Accent)),
                raw("   "@),
                hint(self.status),
            ],
            None => seq![hint(self.status)],
        }
    }

    /// How many things the tab shows.
    pub open spec fn count_text(self, active: Mode) -> Seq<char> {
        match active {
            Mode::Library => number::decimal(self.library.len()) + " on disk "@,
            Mode::Settings => "configuration "@,
            _ => number::decimal(self.entries.len()) + " found "@,
        }
    }
}

/// A tab, lit when it is open.
pub open spec fn tab(label: Seq<char>, active: bool) -> SpanView {
    let content = " "@ + label + " "@;
    if active {
        styled(content, (Style { fg: Some(Tone::OnAccent), bg: Some(Tone::Accent), bold: true }))
    } else {
        hint(content)
    }
}

/// The line of tabs.
pub open spec fn tab_line(active: Mode) -> Seq<SpanView> {
    seq![
        tab("Search"@, active == Mode::Search || active == Mode::Browse || active == Mode::Sources),
        raw(" "@),
        tab("Downloads"@, active == Mode::Library),
        raw(" "@),
        tab("Settings"@, active == Mode::Settings),
        hint("   tab switches"@),
    ]
}

fn show_tab(label: &str, active: bool) -> (r: Span)
    ensures
        r@ == tab(label@, active),
{
    let mut content = with_glyph(" ", label);
    content.append(" ");
    if active {
        theme::styled(
            content,
            Style { fg: Some(Tone::OnAccent), bg: Some(Tone::Accent), bold: true },
        )
    } else {
        theme::styled(content, Style::of(Tone::Muted))
    }
}

/// The line of tabs.
pub fn tabs(active: Mode) -> (r: Vec<Span>)
    ensures
        theme::spans_view(r@) == tab_line(active),
{
    let mut spans: Vec<Span> = Vec::new();
    spans.push(
        show_tab(
            "Search",
            active == Mode::Search || active == Mode::Browse || active == Mode::Sources,
        ),
    );
    spans.push(plain(" "));
    spans.push(show_tab("Downloads", active == Mode::Library));
    spans.push(plain(" "));
    spans.push(show_tab("Settings", active == Mode::Settings));
    spans.push(theme::hint("   tab switches"));
    assert(theme::spans_view(spans@) =~= tab_line(active));
    spans
}

/// The legend below the downloaded books.
pub fn library_legend() -> (r: Vec<Span>)
    ensures
        theme::spans_view(r@) == seq![
            hint(" open "@),
            key("enter"@),
            hint("  refresh "@),
            key("r"@),
            hint("  search "@),
            key("tab"@),
            hint(" "@),
        ],
{
    let mut spans: Vec<Span> = Vec::new();
    spans.push(theme::hint(" open "));
    spans.push(theme::key("enter"));
    spans.push(theme::hint("  refresh "));
    spans.push(theme::key("r"));
    spans.push(theme::hint("  search "));
    spans.push(theme::key("tab"));
    spans.push(theme::hint(" "));
    assert(theme::spans_view(spans@) =~= seq![
        hint(" open "@),
        key("enter"@),
        hint("  refresh "@),
        key("r"@),
        hint("  search "@),
        key("tab"@),
        hint(" "@),
    ]);
    spans
}

impl App {
    /// The legend below the results.
    pub fn results_legend(&self) -> (r: Vec<Span>)
        ensures
            theme::spans_view(r@) == self@.results_legend(),
    {
        let mut page = with_glyph(
            " ",
            crate::app::replies::page_of_total(self.page, self.total_pages).as_str(),
        );
        page.append(" ");
        let mut spans: Vec<Span> = Vec::new();
        spans.push(theme::hint(" search "));
        spans.push(theme::key("/"));
        spans.push(theme::hint("  mark "));
        spans.push(theme::key("space"));
        spans.push(theme::hint("  get "));
        spans.push(theme::key("d"));
        spans.push(theme::hint("  open "));
        spans.push(theme::key("o"));
        spans.push(theme::hint("  quit "));
        spans.push(theme::key("q"));
        spans.push(theme::hint("   page"));
        spans.push(theme::styled(page, Style::strong(Tone::AccentBright)));
        spans.push(theme::key("p"));
        spans.push(theme::hint("/"));
        spans.push(theme::key("n"));
        spans.push(theme::hint(" "));
        assert(theme::spans_view(spans@) =~= self@.results_legend());
        spans
    }

    /// One chip per catalog, lit when it will be queried.
    pub fn source_line(&self) -> (r: Vec<Span>)
        ensures
            theme::spans_view(r@) == self@.source_line(),
    {
        let ghost chips = Seq::new(self.sources@.len(), |i: int| self@.chip(i));
        let picking = self.mode == Mode::Sources;
        let mut spans: Vec<Span> = Vec::new();
        spans.push(theme::hint("Sources"));
        let mut i: usize = 0;
        assert(theme::spans_view(spans@) =~= seq![hint("Sources"@)] + chips.take(0));
        while i < self.sources.len()
            invariant
                i <= self.sources@.len(),
                picking == (self.mode == Mode::Sources),
                chips == Seq::new(self.sources@.len(), |i: int| self@.chip(i)),
                theme::spans_view(spans@) == seq![hint("Sources"@)] + chips.take(i as int),
            decreases self.sources@.len() - i,
        {
            let entry = self.sources[i];
            let mut content = " ".to_owned();
            content.append(
                if entry.enabled {
                    "●"
                } else {
                    "○"
                },
            );
            content.append(" ");
            content.append(entry.source.name());
            content.append(" ");
            let style = if picking && i == self.source_cursor {
                Style { fg: Some(Tone::OnAccent), bg: Some(Tone::AccentBright), bold: true }
            } else if entry.enabled {
                Style::of(Tone::Good)
            } else {
                Style::of(Tone::Faint)
            };
            let ghost before = theme::spans_view(spans@);
            spans.push(theme::styled(content, style));
            assert(theme::spans_view(spans@) =~= before.push(self@.chip(i as int)));
            assert(theme::spans_view(spans@) =~= seq![hint("Sources"@)] + chips.take(i + 1));
            i += 1;
        }
        assert(chips.take(i as int) =~= chips);
        spans.push(
            theme::hint(
                if picking {
                    "  space toggles, esc done"
                } else if self.mode == Mode::Search {
                    "  (ctrl+s to change)"
                } else {
                    "  (s to change)"
                },
            ),
        );
        assert(theme::spans_view(spans@) =~= self@.source_line());
        spans
    }

    /// What the app is waiting on right now, if anything.
    pub fn phase(&self) -> (r: Option<String>)
        ensures
            text::text_in(r) == self@.phase(),
    {
        if self.pending > 0 {
            return Some(
                if self.entries.len() == 0 {
                    "Searching".to_owned()
                } else {
                    "Waiting for the rest".to_owned()
                },
            );
        }
        let mut active: usize = 0;
        let mut i: usize = 0;
        while i < self.entries.len()
            invariant
                i <= self.entries@.len(),
                active <= i,
                active == self@.active(i as int),
            decreases self.entries@.len() - i,
        {
            assert(self@.entries[i as int] == self.entries@[i as int]@);
            match self.entries[i].status {
                Status::Queued | Status::Downloading { .. } | Status::Uploading => {
                    active += 1;
                },
                _ => {},
            }
            i += 1;
        }
        if active == 0 {
            None
        } else if active == 1 {
            Some("Downloading".to_owned())
        } else {
            let mut phase = "Downloading ".to_owned();
            phase.append(number::to_decimal(active as u64).as_str());
            phase.append(" books");
            Some(phase)
        }
    }

    /// Spinner plus whatever the app is waiting on, then the free-text status.
    pub fn status_line(&self) -> (r: Vec<Span>)
        ensures
            theme::spans_view(r@) == self@.status_line(),
    {
        let mut spans: Vec<Span> = Vec::new();
        if let Some(phase) = self.phase() {
            spans.push(theme::spin(self.spinner, Style::strong(Tone::Accent)));
            spans.push(
                theme::styled(with_glyph(" ", phase.as_str()), Style::strong(Tone::Accent)),
            );
            spans.push(plain("   "));
        }
        spans.push(theme::hint(self.status.as_str()));
        assert(theme::spans_view(spans@) =~= self@.status_line());
        spans
    }

    /// How many things the tab shows.
    pub fn count_text(&self, active: Mode) -> (r: String)
        ensures
            r@ == self@.count_text(active),
    {
        match active {
            Mode::Library => {
                let mut out = number::to_decimal(self.library.len() as u64);
                out.append(" on disk ");
                out
            },
            Mode::Settings => "configuration ".to_owned(),
            _ => {
                let mut out = number::to_decimal(self.entries.len() as u64);
                out.append(" found ");
                out
            },
        }
    }
}

// ---- titles -----------------------------------------------------------------------

/// The title of a text that can be edited.
pub open spec fn field_name(field: Field) -> Seq<char> {
    match field {
        Field::Query => " Search "@,
        Field::DownloadFolder => " Download folder "@,
        Field::DriveRemote => " Google Drive remote (optional) "@,
    }
}

/// The title of the list, or of the help, on a tab.
pub open spec fn list_name(active: Mode) -> Seq<char> {
    match active {
        Mode::Library => " Downloaded books "@,
        Mode::Settings => " Storage "@,
        _ => " Results "@,
    }
}

impl AppView {
    /// The text is the one that is edited, on the tab that it stands on.
    pub open spec fn has_focus(self, field: Field) -> bool {
        match field {
            Field::Query => self.mode == Mode::Search,
            Field::DownloadFolder => self.settings_cursor == 0,
            Field::DriveRemote => self.settings_cursor == 1,
        }
    }

    /// The color of a text's title and border.
    pub open spec fn focus_tone(self, field: Field) -> Tone {
        if self.has_focus(field) {
            Tone::Accent
        } else {
            Tone::Faint
        }
    }
}

impl App {
    /// Whether the text is the one that is edited, on the tab that it stands on.
    pub fn has_focus(&self, field: Field) -> (r: bool)
        ensures
            r == self@.has_focus(field),
    {
        match field {
            Field::Query => self.mode == Mode::Search,
            Field::DownloadFolder => self.settings_cursor == 0,
            Field::DriveRemote => self.settings_cursor == 1,
        }
    }

    /// The color of a text's border: lit where it is edited.
    pub fn focus_tone(&self, field: Field) -> (r: Tone)
        ensures
            r == self@.focus_tone(field),
    {
        if self.has_focus(field) {
            Tone::Accent
        } else {
            Tone::Faint
        }
    }

    /// The title of a text that can be edited.
    pub fn field_title(&self, field: Field) -> (r: Span)
        ensures
            r@ == styled(field_name(field), Style::strong(self@.focus_tone(field))),
    {
        let name = match field {
            Field::Query => " Search ",
            Field::DownloadFolder => " Download folder ",
            Field::DriveRemote => " Google Drive remote (optional) ",
        };
        toned(name, Style::strong(self.focus_tone(field)))
    }
}

/// The title of the list, or of the help, on a tab.
pub fn list_title(active: Mode) -> (r: Span)
    ensures
        r@ == styled(list_name(active), Style::strong(Tone::Accent)),
{
    let name = match active {
        Mode::Library => " Downloaded books ",
        Mode::Settings => " Storage ",
        _ => " Results ",
    };
    toned(name, Style::strong(Tone::Accent))
}

// ---- when there is nothing to show ------------------------------------------------

/// A line of spans.
#[derive(Debug)]
pub struct Line {
    pub spans: Vec<Span>,
}

impl View for Line {
    type V = Seq<SpanView>;

    open spec fn view(&self) -> Seq<SpanView> {
        theme::spans_view(self.spans@)
    }
}

/// What some lines hold.
pub open spec fn lines_view(lines: Seq<Line>) -> Seq<Seq<SpanView>> {
    Seq::new(lines.len(), |i: int| lines[i]@)
}

fn line_of(span: Span) -> (r: Line)
    ensures
        r@ == seq![span@],
{
    let mut spans: Vec<Span> = Vec::new();
    spans.push(span);
    assert(theme::spans_view(spans@) =~= seq![span@]);
    Line { spans }
}

fn empty_line() -> (r: Line)
    ensures
        r@ == Seq::<SpanView>::empty(),
{
    Line { spans: Vec::new() }
}

impl AppView {
    /// What the empty list of results says.
    pub open spec fn results_placeholder(self) -> Seq<Seq<SpanView>> {
        if self.pending > 0 {
            seq![seq![hint("Searching the catalogs…"@)]]
        } else {
            seq![
                seq![styled("Nothing here yet"@, Style::strong(Tone::Muted))],
                seq![],
                seq![hint("Results from the ticked sources land here"@)],
            ]
        }
    }

    /// What an empty search box says while it is not open.
    pub open spec fn search_placeholder(self) -> Option<SpanView> {
        if self.input.text.len() == 0 && self.mode != Mode::Search {
            Some(styled("  press / to search"@, Style::of(Tone::Faint)))
        } else {
            None
        }
    }

    /// What the settings say below the fields.
    pub open spec fn settings_help(self) -> Seq<Seq<SpanView>> {
        seq![
            seq![
                hint("Drive target example: "@),
                styled("gdrive:EBookArchive"@, Style::of(Tone::Blue)),
            ],
            seq![],
            seq![
                if self.rclone_available {
                    styled("rclone is installed"@, Style::strong(Tone::Good))
                } else {
                    styled("rclone is not installed"@, Style::strong(Tone::Bad))
                },
                hint(". Configure it with: rclone config"@),
            ],
            seq![],
            seq![hint("up/down chooses a field  •  Enter saves  •  Tab opens Search"@)],
        ]
    }
}

impl App {
    /// What the empty list of results says.
    pub fn results_placeholder(&self) -> (r: Vec<Line>)
        ensures
            lines_view(r@) == self@.results_placeholder(),
    {
        let mut lines: Vec<Line> = Vec::new();
        if self.pending > 0 {
            lines.push(line_of(theme::hint("Searching the catalogs…")));
        } else {
            lines.push(line_of(toned("Nothing here yet", Style::strong(Tone::Muted))));
            lines.push(empty_line());
            lines.push(line_of(theme::hint("Results from the ticked sources land here")));
        }
        assert(lines_view(lines@) =~= self@.results_placeholder());
        lines
    }

    /// What an empty search box says while it is not open.
    pub fn search_placeholder(&self) -> (r: Option<Span>)
        ensures
            match r {
                Some(span) => self@.search_placeholder() == Some(span@),
                None => self@.search_placeholder() is None,
            },
    {
        if self.input.text().as_str().is_empty() && self.mode != Mode::Search {
            Some(toned("  press / to search", Style::of(Tone::Faint)))
        } else {
            None
        }
    }

    /// What the settings say below the fields.
    pub fn settings_help(&self) -> (r: Vec<Line>)
        ensures
            lines_view(r@) == self@.settings_help(),
    {
        let mut lines: Vec<Line> = Vec::new();
        let mut first: Vec<Span> = Vec::new();
        first.push(theme::hint("Drive target example: "));
        first.push(toned("gdrive:EBookArchive", Style::of(Tone::Blue)));
        lines.push(Line { spans: first });
        lines.push(empty_line());
        let mut third: Vec<Span> = Vec::new();
        third.push(
            if self.rclone_available {
                toned("rclone is installed", Style::strong(Tone::Good))
            } else {
                toned("rclone is not installed", Style::strong(Tone::Bad))
            },
        );
        third.push(theme::hint(". Configure it with: rclone config"));
        lines.push(Line { spans: third });
        lines.push(empty_line());
        lines.push(
            line_of(
                theme::hint("up/down chooses a field  •  Enter saves  •  Tab opens Search"),
            ),
        );
        assert(lines@[0]@ =~= self@.settings_help()[0]);
        assert(lines@[2]@ =~= self@.settings_help()[2]);
        assert(lines_view(lines@) =~= self@.settings_help());
        lines
    }
}

/// What the empty list of downloaded books says.
pub fn library_placeholder() -> (r: Vec<Line>)
    ensures
        lines_view(r@) == seq![
            seq![styled("No books downloaded yet"@, Style::strong(Tone::Muted))],
            seq![],
            seq![hint("Find one on the Search tab and press d"@)],
        ],
{
    let mut lines: Vec<Line> = Vec::new();
    lines.push(line_of(toned("No books downloaded yet", Style::strong(Tone::Muted))));
    lines.push(empty_line());
    lines.push(line_of(theme::hint("Find one on the Search tab and press d")));
    assert(lines_view(lines@) =~= seq![
        seq![styled("No books downloaded yet"@, Style::strong(Tone::Muted))],
        seq![],
        seq![hint("Find one on the Search tab and press d"@)],
    ]);
    lines
}

/// How many rows stand above a short message in the middle of the area.
pub open spec fn rows_above(area: Area, lines: u16) -> u16 {
    if area.height <= lines {
        0
    } else {
        ((area.height - lines) / 2) as u16
    }
}

/// Where a short message in an otherwise empty list goes: the middle of the
/// area, if there is any.
pub fn placeholder_area(area: Area, lines: u16) -> (r: Option<Area>)
    requires
        area.height > 0 ==> area.y + rows_above(area, lines) <= u16::MAX,
    ensures
        r == (if area.height == 0 {
            None
        } else {
            let top = rows_above(area, lines);
            Some(
                Area {
                    x: area.x,
                    y: (area.y + top) as u16,
                    width: area.width,
                    height: (area.height - top) as u16,
                },
            )
        }),
{
    if area.height == 0 {
        return None;
    }
    let top: u16 = if area.height <= lines {
        0
    } else {
        (area.height - lines) / 2
    };
    Some(Area { x: area.x, y: area.y + top, width: area.width, height: area.height - top })
}

/// Whether a list of `len` rows needs a scrollbar: its area has a frame around
/// it, and the rows do not fit inside.
pub fn needs_scrollbar(area: Area, len: usize) -> (r: bool)
    ensures
        r == (len > (if area.height >= 2 {
            area.height - 2
        } else {
            0
        })),
{
    let visible: usize = if area.height >= 2 {
        (area.height - 2) as usize
    } else {
        0
    };
    len > visible
}

/// The width of a row inside the frame of a list: two cells go to the cursor
/// gutter, two to the borders.
pub fn content_width(area: Area) -> (r: usize)
    ensures
        r == (if area.width >= 4 {
            area.width - 4
        } else {
            0
        }),
{
    if area.width >= 4 {
        (area.width - 4) as usize
    } else {
        0
    }
}

// ---- laws -------------------------------------------------------------------------

/// How the parts of a line are drawn: texts of their own without color, hints
/// dimmed, keys strong in the accent color.
pub proof fn law_parts_of_a_line(content: Seq<char>)
    ensures
        raw(content) == (SpanView {
            content,
            style: Style { fg: None, bg: None, bold: false },
        }),
        hint(content) == (SpanView {
            content,
            style: Style { fg: Some(Tone::Muted), bg: None, bold: false },
        }),
        key(content) == (SpanView {
            content,
            style: Style { fg: Some(Tone::Accent), bg: None, bold: true },
        }),
{
}

/// Where both sides fit with two cells between them, they are shown whole, the
/// left one at the left edge and the right one at the right edge.
pub proof fn law_both_sides_are_shown(
    left: Vec<Span>,
    right: Vec<Span>,
    width: usize,
    r: Vec<Span>,
)
    requires
        call_ensures(justify, (left, right, width), r),
        theme::run_cells(theme::spans_view(left@)) + 2 + theme::run_cells(
            theme::spans_view(right@),
        ) <= width,
    ensures
        ({
            let a = theme::spans_view(left@);
            let b = theme::spans_view(right@);
            let gap = (width - theme::run_cells(a) - theme::run_cells(b)) as nat;
            theme::spans_view(r@) == a + seq![raw(text::repeated(' ', gap))] + b
        }),
{
    let a = theme::spans_view(left@);
    let b = theme::spans_view(right@);
    let gap = (width - theme::run_cells(a) - theme::run_cells(b)) as nat;
    assert(a.push(raw(text::repeated(' ', gap))) =~= a + seq![raw(text::repeated(' ', gap))]);
}

/// Each format of a book is named once, at its first file, with the size of that
/// file where it is known.
pub proof fn law_formats_are_named_once(
    downloads: Seq<DownloadView>,
    quotients: Seq<Seq<char>>,
    n: int,
)
    requires
        0 < n <= downloads.len(),
    ensures
        download_texts(downloads, quotients, 0).len() == 0,
        ({
            let before = download_texts(downloads, quotients, n - 1);
            let after = download_texts(downloads, quotients, n);
            let file = downloads[n - 1];
            let known = exists|j: int|
                0 <= j < n - 1 && (#[trigger] downloads[j]).format == file.format;
            &&& known ==> after == before
            &&& !known && file.size is None ==> after == before.push(file.format.label())
            &&& !known && file.size is Some ==> after == before.push(
                file.format.label() + " "@ + theme::size_text(file.size->0, quotients[n - 1]),
            )
        }),
{
}

/// The formats stand on one line, two blanks apart.
pub proof fn law_formats_line(downloads: Seq<DownloadView>, quotients: Seq<Seq<char>>)
    ensures
        formats_line(downloads, quotients) == words::joined(
            download_texts(downloads, quotients, downloads.len() as int),
            seq![' ', ' '],
        ),
{
    reveal_strlit("  ");
    assert("  "@ =~= seq![' ', ' ']);
}

/// What the right side of a row says of a book: its formats, that it waits, that
/// it is copied, where it was saved, or why it failed.
pub proof fn law_status_of_a_book(app: &App, entry: &Entry, figures: &Figures, r: Vec<Span>)
    requires
        call_ensures(App::status_cell, (app, entry, figures), r),
    ensures
        entry.status is Idle ==> theme::spans_view(r@) == seq![
            styled(
                formats_line(entry@.book.downloads, text::texts(figures.sizes@)),
                Style::of(Tone::Blue),
            ),
        ],
        entry.status is Queued ==> theme::spans_view(r@) == seq![
            theme::spinner(app.spinner, Style::of(Tone::Warn)),
            styled(" queued"@, Style::of(Tone::Warn)),
        ],
        entry.status is Uploading ==> theme::spans_view(r@) == seq![
            theme::spinner(app.spinner, Style::of(Tone::Blue)),
            styled(" uploading to Drive"@, Style::of(Tone::Blue)),
        ],
        entry.status matches Status::Done(saved) ==> theme::spans_view(r@) == seq![
            styled("✓ "@ + saved.name@, Style::of(Tone::Good)),
        ],
        entry.status matches Status::Failed(error) ==> theme::spans_view(r@) == seq![
            styled("✗ "@ + error@, Style::of(Tone::Bad)),
        ],
{
}

/// A download of a known length has a bar of fourteen cells, the percentage, the
/// rate and the time that is left; one of unknown length has a sweep, what has
/// arrived, and the rate.
pub proof fn law_progress_of_a_download(
    app: AppView,
    entry: EntryView,
    figures: FiguresView,
    seen: u64,
    total: Option<u64>,
)
    requires
        entry.status == (StatusView::Downloading { seen, total }),
    ensures
        ({
            let cell = app.status_cell(entry, figures);
            let bar = theme::bar(figures.eighths as nat, 14, Tone::Warn);
            let sweep = theme::pulsing((app.frame as usize) as nat, 14, Tone::Warn);
            let rate = theme::rate_text(seen, figures.elapsed, figures.speed);
            &&& total is Some && total->0 > 0 ==> cell == bar + seq![
                styled(
                    " "@ + text::padded_left(figures.percent, 3) + "%"@,
                    Style::strong(Tone::Warn),
                ),
                hint("  "@ + text::padded_left(rate, 9)),
                hint(
                    "  "@ + text::padded_left(
                        theme::eta_text(
                            seen,
                            total->0,
                            figures.elapsed,
                            figures.remaining,
                            figures.partial,
                        ),
                        5,
                    ),
                ),
            ]
            &&& total is None || total->0 == 0 ==> cell == sweep + seq![
                styled(
                    " "@ + text::padded_left(theme::size_text(seen, figures.seen), 9),
                    Style::strong(Tone::Warn),
                ),
                hint("  "@ + text::padded_left(rate, 9)),
            ]
        }),
{
    let cell = app.status_cell(entry, figures);
    let bar = theme::bar(figures.eighths as nat, 14, Tone::Warn);
    let sweep = theme::pulsing((app.frame as usize) as nat, 14, Tone::Warn);
    if total is Some && total->0 > 0 {
        let tail = cell.skip(bar.len() as int);
        assert(cell =~= bar + tail);
        assert(tail.len() == 3);
        assert(tail =~= seq![tail[0], tail[1], tail[2]]);
    } else {
        let tail = cell.skip(sweep.len() as int);
        assert(cell =~= sweep + tail);
        assert(tail.len() == 2);
        assert(tail =~= seq![tail[0], tail[1]]);
    }
}

/// What the left side of a row says of a book: its mark, its catalog in a column
/// as wide as the longest name, its title, its authors, and its language where
/// it is known.
pub proof fn law_row_of_a_book(
    app: &App,
    entry: &Entry,
    figures: &Figures,
    width: usize,
    r: Vec<Span>,
)
    requires
        call_ensures(App::row, (app, entry, figures, width), r),
    ensures
        ({
            let book = entry@.book;
            let mark = if entry.marked {
                styled("✓ "@, Style::strong(Tone::Good))
            } else {
                styled("· "@, Style::of(Tone::Faint))
            };
            let catalog = styled(
                text::padded_right(book.source, app@.tag_width()) + "  "@,
                Style::of(Tone::Violet),
            );
            let told = seq![mark, catalog, raw(book.title), hint("  "@ + book.author_line())];
            let left = match book.language {
                Some(language) => told.push(styled("  "@ + language, Style::of(Tone::Blue))),
                None => told,
            };
            theme::spans_view(r@) == justified(
                left,
                app@.status_cell(entry@, figures@),
                width as nat,
            )
        }),
{
}

/// The column of catalogs is as wide as the longest of their names.
pub proof fn law_catalogs_have_a_column(app: &App, r: usize, k: int)
    requires
        call_ensures(App::tag_width, (app,), r),
        0 <= k < app.sources@.len(),
    ensures
        r >= app.sources@[k].source.tag().len(),
        exists|i: int|
            0 <= i < app.sources@.len() && (#[trigger] app.sources@[i]).source.tag().len() == r,
{
    lemma_longest_name(app.sources@, app.sources@.len() as int, k);
}

proof fn lemma_longest_name(sources: Seq<SourceEntry>, n: int, k: int)
    requires
        0 <= k < n <= sources.len(),
    ensures
        longest_name(sources, n) >= sources[k].source.tag().len(),
        exists|i: int|
            0 <= i < n && (#[trigger] sources[i]).source.tag().len() == longest_name(sources, n),
    decreases n,
{
    if n == 1 {
        assert(longest_name(sources, 0) == 0);
        assert(sources[0].source.tag().len() == longest_name(sources, n));
    } else {
        let m = if k < n - 1 {
            k
        } else {
            0
        };
        lemma_longest_name(sources, n - 1, m);
        if longest_name(sources, n) == longest_name(sources, n - 1) {
            let i = choose|i: int|
                0 <= i < n - 1 && (#[trigger] sources[i]).source.tag().len() == longest_name(
                    sources,
                    n - 1,
                );
            assert(sources[i].source.tag().len() == longest_name(sources, n));
        } else {
            assert(sources[n - 1].source.tag().len() == longest_name(sources, n));
        }
    }
}

/// A row of the downloaded books: the name at the left, the extension in
/// capitals and the size at the right.
pub proof fn law_row_on_disk(
    entry: &LibraryEntry,
    quotient: &str,
    width: usize,
    r: Vec<Span>,
    name: &str,
    ext: Option<String>,
)
    requires
        call_ensures(library_row, (entry, quotient, width), r),
        name@ == entry.name@,
        call_ensures(files::extension, (name,), ext),
    ensures
        ({
            let shown = match ext {
                Some(ext) => text::raised(ext@),
                None => seq!['?'],
            };
            theme::spans_view(r@) == justified(
                seq![raw(entry.name@)],
                seq![
                    styled(seq!['['] + shown + seq![']'], Style::of(Tone::Blue)),
                    hint("  "@ + text::padded_left(theme::size_text(entry.size, quotient@), 9)),
                ],
                width as nat,
            )
        }),
{
    reveal_strlit("?");
    reveal_strlit("[");
    reveal_strlit("]");
    assert("?"@ =~= seq!['?']);
    assert("["@ =~= seq!['[']);
    assert("]"@ =~= seq![']']);
}

/// The legend of the results names the keys beside what they do, and the page.
pub proof fn law_results_legend(app: &App, r: Vec<Span>, page: String)
    requires
        call_ensures(App::results_legend, (app,), r),
        call_ensures(crate::app::replies::page_of_total, (app.page, app.total_pages), page),
    ensures
        r@.len() == 16,
        r@[0].content@ == " search "@ && r@[1].content@ == "/"@,
        r@[2].content@ == "  mark "@ && r@[3].content@ == "space"@,
        r@[4].content@ == "  get "@ && r@[5].content@ == "d"@,
        r@[6].content@ == "  open "@ && r@[7].content@ == "o"@,
        r@[8].content@ == "  quit "@ && r@[9].content@ == "q"@,
        r@[10].content@ == "   page"@ && r@[11].content@ == " "@ + page@ + " "@,
        r@[12].content@ == "p"@ && r@[13].content@ == "/"@ && r@[14].content@ == "n"@,
        r@[15].content@ == " "@,
{
    let all = theme::spans_view(r@);
    assert(all.len() == r@.len());
    assert forall|i: int| 0 <= i < 16 implies #[trigger] all[i] == r@[i]@ by {}
    assert(all[0] == r@[0]@ && all[1] == r@[1]@ && all[2] == r@[2]@ && all[3] == r@[3]@);
    assert(all[4] == r@[4]@ && all[5] == r@[5]@ && all[6] == r@[6]@ && all[7] == r@[7]@);
    assert(all[8] == r@[8]@ && all[9] == r@[9]@ && all[10] == r@[10]@ && all[11] == r@[11]@);
    assert(all[12] == r@[12]@ && all[13] == r@[13]@ && all[14] == r@[14]@ && all[15] == r@[15]@);
}

/// The legend of the downloaded books names the keys beside what they do.
pub proof fn law_library_legend(r: Vec<Span>)
    requires
        call_ensures(library_legend, (), r),
    ensures
        theme::spans_view(r@) == seq![
            hint(" open "@),
            key("enter"@),
            hint("  refresh "@),
            key("r"@),
            hint("  search "@),
            key("tab"@),
            hint(" "@),
        ],
{
}

/// Each catalog has a chip with its name, filled where it is switched on. The
/// one that the cursor is on is lit while catalogs are picked; the others are
/// green or dim.
pub proof fn law_chips(app: &App, r: Vec<Span>, i: int)
    requires
        call_ensures(App::source_line, (app,), r),
        0 <= i < app.sources@.len(),
    ensures
        r@.len() == app.sources@.len() + 2,
        r@[0].content@ == "Sources"@,
        ({
            let chip = r@[i + 1];
            let entry = app.sources@[i];
            let picked = app.mode == Mode::Sources && app.source_cursor == i;
            &&& entry.enabled ==> chip.content@ == " "@ + "●"@ + " "@ + entry.source.tag() + " "@
            &&& !entry.enabled ==> chip.content@ == " "@ + "○"@ + " "@ + entry.source.tag() + " "@
            &&& picked ==> chip.style.bg == Some(Tone::AccentBright) && chip.style.fg == Some(
                Tone::OnAccent,
            ) && chip.style.bold
            &&& !picked && entry.enabled ==> chip.style == Style::of(Tone::Good)
            &&& !picked && !entry.enabled ==> chip.style == Style::of(Tone::Faint)
        }),
        ({
            let last = r@[app.sources@.len() as int + 1].content@;
            &&& app.mode == Mode::Sources ==> last == "  space toggles, esc done"@
            &&& app.mode == Mode::Search ==> last == "  (ctrl+s to change)"@
            &&& app.mode != Mode::Sources && app.mode != Mode::Search ==> last
                == "  (s to change)"@
        }),
{
    let all = theme::spans_view(r@);
    let n = app.sources@.len() as int;
    let chips = Seq::new(app.sources@.len(), |k: int| app@.chip(k));
    assert(all.len() == r@.len());
    assert(all == app@.source_line());
    assert(all[0] == r@[0]@);
    assert(all[i + 1] == r@[i + 1]@);
    assert(all[i + 1] == chips[i]);
    assert(all[n + 1] == r@[n + 1]@);
}

proof fn lemma_active(app: AppView, n: int, i: int)
    requires
        0 <= n <= app.entries.len(),
    ensures
        app.active(n) == 0 <==> forall|k: int|
            0 <= k < n ==> !app.is_active(k) && (#[trigger] app.entries[k]) == app.entries[k],
        app.active(n) <= n,
        0 <= i < n && app.is_active(i) ==> app.active(n) >= 1,
    decreases n,
{
    if n > 0 {
        lemma_active(app, n - 1, i);
        if app.active(n) == 0 {
            assert forall|k: int| 0 <= k < n implies !app.is_active(k) && (
            #[trigger] app.entries[k]) == app.entries[k] by {
                if k < n - 1 {
                    assert(app.entries[k] == app.entries[k]);
                }
            }
        }
        if forall|k: int|
            0 <= k < n ==> !app.is_active(k) && (#[trigger] app.entries[k]) == app.entries[k] {
            assert(app.entries[n - 1] == app.entries[n - 1]);
        }
    }
}

/// What the app waits for: while catalogs are to answer, for the search; else
/// for downloads, which are counted where there are several. A book counts
/// while it is queued, downloaded or copied.
pub proof fn law_phase(app: &App, r: Option<String>, i: int, j: int)
    requires
        call_ensures(App::phase, (app,), r),
        0 <= i < app.entries@.len(),
        0 <= j < app.entries@.len(),
    ensures
        app.pending > 0 ==> r is Some && r->0@ == "Waiting for the rest"@,
        app.pending == 0 && (app.entries@[i].status is Queued || app.entries@[i].status is
            Downloading || app.entries@[i].status is Uploading) ==> r is Some,
        app.pending == 0 && (forall|k: int|
            0 <= k < app.entries@.len() ==> (#[trigger] app.entries@[k]).status is Idle
                || app.entries@[k].status is Done || app.entries@[k].status is Failed)
            ==> r is None,
        app.pending == 0 && i < j && app@.is_active(i) && app@.is_active(j) ==> r is Some && r->0@
            == "Downloading "@ + number::decimal(app@.active(app.entries@.len() as int))
            + " books"@,
        app.pending == 0 && app@.is_active(i) && (forall|k: int|
            0 <= k < app.entries@.len() && k != i ==> (#[trigger] app.entries@[k]).status is Idle
                || app.entries@[k].status is Done || app.entries@[k].status is Failed)
            ==> r is Some && r->0@ == "Downloading"@,
{
    let n = app.entries@.len() as int;
    assert(app@.entries.len() == n);
    assert(app@.entries[i] == app.entries@[i]@);
    assert(app@.entries[j] == app.entries@[j]@);
    lemma_active(app@, n, i);
    if i < j && app@.is_active(i) && app@.is_active(j) {
        lemma_two_active(app@, n, i, j);
    }
    if forall|k: int|
        0 <= k < app.entries@.len() ==> (#[trigger] app.entries@[k]).status is Idle
            || app.entries@[k].status is Done || app.entries@[k].status is Failed {
        assert forall|k: int| 0 <= k < n implies !app@.is_active(k) && (
        #[trigger] app@.entries[k]) == app@.entries[k] by {
            assert(app@.entries[k] == app.entries@[k]@);
        }
    }
    if app@.is_active(i) && (forall|k: int|
        0 <= k < app.entries@.len() && k != i ==> (#[trigger] app.entries@[k]).status is Idle
            || app.entries@[k].status is Done || app.entries@[k].status is Failed) {
        assert forall|k: int| 0 <= k < n && k != i implies !#[trigger] app@.is_active(k) by {
            assert(app@.entries[k] == app.entries@[k]@);
        }
        lemma_one_active(app@, n, i);
    }
}

proof fn lemma_two_active(app: AppView, n: int, i: int, j: int)
    requires
        0 <= i < j < n <= app.entries.len(),
        app.is_active(i),
        app.is_active(j),
    ensures
        app.active(n) >= 2,
    decreases n,
{
    if j == n - 1 {
        lemma_active(app, n - 1, i);
    } else {
        lemma_two_active(app, n - 1, i, j);
    }
}

proof fn lemma_one_active(app: AppView, n: int, i: int)
    requires
        0 <= i < n <= app.entries.len(),
        app.is_active(i),
        forall|k: int| 0 <= k < n && k != i ==> !#[trigger] app.is_active(k),
    ensures
        app.active(n) == 1,
    decreases n,
{
    if i == n - 1 {
        lemma_active(app, n - 1, i);
        assert forall|k: int| 0 <= k < n - 1 implies !app.is_active(k) && (
        #[trigger] app.entries[k]) == app.entries[k] by {
            assert(!app.is_active(k));
        }
    } else {
        assert(!app.is_active(n - 1));
        lemma_one_active(app, n - 1, i);
    }
}

/// With an empty list the app searches, or waits for nothing.
pub proof fn law_phase_of_an_empty_list(app: &App, r: Option<String>)
    requires
        call_ensures(App::phase, (app,), r),
        app.entries@.len() == 0,
    ensures
        app.pending > 0 ==> r is Some && r->0@ == "Searching"@,
        app.pending == 0 ==> r is None,
{
    assert(app@.entries.len() == 0);
}

/// The status line has what the app waits for, with a spinner before it, and
/// always what the user was told last.
pub proof fn law_status_line(app: &App, r: Vec<Span>, phase: Option<String>)
    requires
        call_ensures(App::status_line, (app,), r),
        call_ensures(App::phase, (app,), phase),
    ensures
        phase is None ==> theme::spans_view(r@) == seq![hint(app.status@)],
        phase is Some ==> theme::spans_view(r@) == seq![
            theme::spinner(app.spinner, Style::strong(Tone::Accent)),
            styled(seq![' '] + phase->0@, Style::strong(Tone::Accent)),
            raw("   "@),
            hint(app.status@),
        ],
{
    reveal_strlit(" ");
    assert(" "@ =~= seq![' ']);
}

/// A tab tells how many books it shows.
pub proof fn law_counts(app: &App, active: Mode, r: String)
    requires
        call_ensures(App::count_text, (app, active), r),
    ensures
        active == Mode::Library ==> r@ == number::decimal(app.library@.len()) + " on disk "@,
        active == Mode::Settings ==> r@ == "configuration "@,
        active != Mode::Library && active != Mode::Settings ==> r@ == number::decimal(
            app.entries@.len(),
        ) + " found "@,
{
    assert(app@.library.len() == app.library@.len());
    assert(app@.entries.len() == app.entries@.len());
}

/// There are three tabs, of which exactly the open one is lit.
pub proof fn law_tabs(active: Mode, r: Vec<Span>)
    requires
        call_ensures(tabs, (active,), r),
    ensures
        r@.len() == 6,
        r@[0].content@ == " "@ + "Search"@ + " "@,
        r@[2].content@ == " "@ + "Downloads"@ + " "@,
        r@[4].content@ == " "@ + "Settings"@ + " "@,
        r@[1].content@ == " "@ && r@[3].content@ == " "@,
        r@[5].content@ == "   tab switches"@,
        r@[4].style.bg == (if active == Mode::Settings {
            Some(Tone::Accent)
        } else {
            None
        }),
        r@[2].style.bg == (if active == Mode::Library {
            Some(Tone::Accent)
        } else {
            None
        }),
        r@[0].style.bg == (if active == Mode::Library || active == Mode::Settings {
            None
        } else {
            Some(Tone::Accent)
        }),
        r@[0].style.bold <==> r@[0].style.bg is Some,
        r@[2].style.bold <==> r@[2].style.bg is Some,
        r@[4].style.bold <==> r@[4].style.bg is Some,
{
    let all = theme::spans_view(r@);
    assert(all.len() == r@.len());
    assert(all == tab_line(active));
    assert(all[0] == r@[0]@ && all[1] == r@[1]@ && all[2] == r@[2]@);
    assert(all[3] == r@[3]@ && all[4] == r@[4]@ && all[5] == r@[5]@);
}

/// A text that is edited is lit, and there is one on every tab that has any.
pub proof fn law_focus(app: &App, field: Field, focus: bool, tone: Tone, title: Span)
    requires
        call_ensures(App::has_focus, (app, field), focus),
        call_ensures(App::focus_tone, (app, field), tone),
        call_ensures(App::field_title, (app, field), title),
    ensures
        field == Field::Query ==> (focus <==> app.mode == Mode::Search),
        field == Field::DownloadFolder ==> (focus <==> app.settings_cursor == 0),
        field == Field::DriveRemote ==> (focus <==> app.settings_cursor == 1),
        focus ==> tone == Tone::Accent,
        !focus ==> tone == Tone::Faint,
        title.style == Style::strong(tone),
        field == Field::Query ==> title.content@ == " Search "@,
        field == Field::DownloadFolder ==> title.content@ == " Download folder "@,
        field == Field::DriveRemote ==> title.content@ == " Google Drive remote (optional) "@,
{
}

/// The titles of the lists.
pub proof fn law_list_titles(active: Mode, r: Span)
    requires
        call_ensures(list_title, (active,), r),
    ensures
        r.style == Style::strong(Tone::Accent),
        active == Mode::Library ==> r.content@ == " Downloaded books "@,
        active == Mode::Settings ==> r.content@ == " Storage "@,
        active != Mode::Library && active != Mode::Settings ==> r.content@ == " Results "@,
{
}

/// What is said where there is nothing to show.
pub proof fn law_placeholders(app: &App, r: Vec<Line>, none: Vec<Line>, search: Option<Span>)
    requires
        call_ensures(App::results_placeholder, (app,), r),
        call_ensures(library_placeholder, (), none),
        call_ensures(App::search_placeholder, (app,), search),
    ensures
        app.pending > 0 ==> lines_view(r@) == seq![seq![hint("Searching the catalogs…"@)]],
        app.pending == 0 ==> lines_view(r@) == seq![
            seq![styled("Nothing here yet"@, Style::strong(Tone::Muted))],
            seq![],
            seq![hint("Results from the ticked sources land here"@)],
        ],
        lines_view(none@) == seq![
            seq![styled("No books downloaded yet"@, Style::strong(Tone::Muted))],
            seq![],
            seq![hint("Find one on the Search tab and press d"@)],
        ],
        search is Some <==> app.input@.text.len() == 0 && app.mode != Mode::Search,
        search is Some ==> search->0@ == styled("  press / to search"@, Style::of(Tone::Faint)),
{
}

/// The settings tell what a remote looks like, whether the copying program is
/// there, and which keys work.
pub proof fn law_settings_help(app: &App, r: Vec<Line>)
    requires
        call_ensures(App::settings_help, (app,), r),
    ensures
        r@.len() == 5,
        r@[0]@ == seq![
            hint("Drive target example: "@),
            styled("gdrive:EBookArchive"@, Style::of(Tone::Blue)),
        ],
        r@[1]@.len() == 0,
        app.rclone_available ==> r@[2]@[0] == styled(
            "rclone is installed"@,
            Style::strong(Tone::Good),
        ),
        !app.rclone_available ==> r@[2]@[0] == styled(
            "rclone is not installed"@,
            Style::strong(Tone::Bad),
        ),
        r@[2]@.len() == 2 && r@[2]@[1] == hint(". Configure it with: rclone config"@),
        r@[3]@.len() == 0,
        r@[4]@ == seq![hint("up/down chooses a field  •  Enter saves  •  Tab opens Search"@)],
{
    let all = lines_view(r@);
    assert(all.len() == r@.len());
    assert(all == app@.settings_help());
    assert(all[0] == r@[0]@ && all[1] == r@[1]@ && all[2] == r@[2]@);
    assert(all[3] == r@[3]@ && all[4] == r@[4]@);
}

/// A message stands in the middle: as many rows are free above it as below, or
/// one fewer; one that is too tall starts at the top.
pub proof fn law_message_in_the_middle(area: Area, lines: u16, r: Option<Area>)
    requires
        call_ensures(placeholder_area, (area, lines), r),
        area.y + area.height <= u16::MAX,
    ensures
        r is None <==> area.height == 0,
        r is Some ==> {
            let above = r->0.y - area.y;
            let below = area.height - lines - above;
            &&& r->0.x == area.x && r->0.width == area.width
            &&& r->0.y + r->0.height == area.y + area.height
            &&& area.height <= lines ==> above == 0
            &&& area.height > lines ==> below == above || below == above + 1
        },
{
}

/// The frame of a list takes a row above and one below; the border and the
/// cursor take two cells each of its width.
pub proof fn law_room_in_a_list(area: Area, len: usize, scrolls: bool, width: usize)
    requires
        call_ensures(needs_scrollbar, (area, len), scrolls),
        call_ensures(content_width, (area,), width),
    ensures
        scrolls <==> len > 0 && len + 2 > area.height,
        area.width >= 4 ==> width + 4 == area.width,
        area.width < 4 ==> width == 0,
{
}

} // verus!
