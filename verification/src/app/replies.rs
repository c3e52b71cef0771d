//! What comes back from the background: search results and the progress of
//! downloads.

use vstd::prelude::*;

use crate::app::{Action, ActionView, App, AppView, Entry, EntryView, Mode, Msg, Status};
use crate::app::{StatusView, RESULTS_PER_PAGE};
use crate::number;
use crate::source::{Book, BookView, Catalog, SearchResults, Source};

verus! {

/// The books as they are first listed.
pub open spec fn fresh_entries(books: Seq<BookView>) -> Seq<EntryView> {
    Seq::new(
        books.len(),
        |i: int|
            EntryView { book: books[i], marked: false, status: StatusView::Idle, started: None },
    )
}

/// As many of the books as are shown at once.
pub open spec fn one_page(entries: Seq<EntryView>) -> Seq<EntryView> {
    if entries.len() <= RESULTS_PER_PAGE {
        entries
    } else {
        entries.take(RESULTS_PER_PAGE as int)
    }
}

/// The total number of pages, behind a slash, where it is known.
pub open spec fn of_total(total: Option<usize>) -> Seq<char> {
    match total {
        Some(total) => "/"@ + number::decimal(total as nat),
        None => seq![],
    }
}

/// A text about the results.
pub open spec fn results_text(count: nat, page: usize, total: Option<usize>) -> Seq<char> {
    if count == 0 {
        "no results"@
    } else {
        number::decimal(count) + "/"@ + number::decimal(RESULTS_PER_PAGE as nat)
            + " results — page "@ + number::decimal(page as nat) + of_total(total) + (if count
            == RESULTS_PER_PAGE {
            " — n for next page"@
        } else {
            seq![]
        }) + " — Space marks, d downloads"@
    }
}

impl AppView {
    /// One reply less is waited for.
    pub open spec fn one_less(self) -> usize {
        if self.pending == 0 {
            0
        } else {
            (self.pending - 1) as usize
        }
    }

    /// What a catalog found is listed, or why it failed is told.
    pub open spec fn listed(
        self,
        source: Catalog,
        result: Result<SearchResults, String>,
    ) -> AppView {
        match result {
            Ok(results) => AppView {
                pending: self.one_less(),
                source_total_pages: match results.total_pages {
                    Some(total) => self.source_total_pages.insert(source, total),
                    None => self.source_total_pages,
                },
                entries: self.entries + fresh_entries(
                    crate::source::books_view(results.books@),
                ),
                ..self
            },
            Err(error) => AppView {
                pending: self.one_less(),
                status: source.tag() + ": "@ + error@,
                ..self
            },
        }
    }

    /// The page is too far on: nothing is on it, and it is known to be past the
    /// last one.
    pub open spec fn past_the_end(self) -> bool {
        self.entries.len() == 0 && self.total_pages is Some && self.page > self.total_pages->0
    }

    /// All catalogs have answered. A page past the last one is replaced by the
    /// last one.
    pub open spec fn complete(self) -> (AppView, ActionView) {
        let cut = AppView {
            entries: one_page(self.entries),
            total_pages: self.exact_total_pages(),
            ..self
        };
        if cut.past_the_end() {
            let last = if cut.total_pages->0 < 1 {
                1
            } else {
                cut.total_pages->0
            };
            AppView { page: last, ..cut }.load_page()
        } else {
            (
                AppView {
                    status: results_text(cut.entries.len(), cut.page, cut.total_pages),
                    mode: if cut.entries.len() > 0 && cut.mode == Mode::Search {
                        Mode::Browse
                    } else {
                        cut.mode
                    },
                    ..cut
                },
                ActionView::Nothing,
            )
        }
    }

    /// A catalog has answered the current search.
    pub open spec fn results_received(
        self,
        source: Catalog,
        result: Result<SearchResults, String>,
    ) -> (AppView, ActionView) {
        let next = self.listed(source, result);
        if next.pending == 0 {
            next.complete()
        } else {
            (next, ActionView::Nothing)
        }
    }

    /// The download of a book has come this far.
    pub open spec fn with_status(self, idx: usize, status: StatusView) -> AppView {
        if idx < self.entries.len() {
            AppView {
                entries: self.entries.update(
                    idx as int,
                    EntryView { status, ..self.entries[idx as int] },
                ),
                ..self
            }
        } else {
            self
        }
    }

    /// The download of a book is complete: its mark goes.
    pub open spec fn download_done(
        self,
        idx: usize,
        status: StatusView,
        drive: Option<Result<String, String>>,
    ) -> AppView {
        if idx < self.entries.len() {
            AppView {
                entries: self.entries.update(
                    idx as int,
                    EntryView { status, marked: false, ..self.entries[idx as int] },
                ),
                status: match drive {
                    Some(Ok(target)) => "uploaded to Google Drive: "@ + target@,
                    Some(Err(error)) => "saved locally; Google Drive: "@ + error@,
                    None => self.status,
                },
                ..self
            }
        } else {
            self
        }
    }

    /// Something came back. What belongs to an earlier search is dropped.
    pub open spec fn received(self, msg: Msg) -> (AppView, ActionView) {
        if generation_of(msg) != self.generation {
            (self, ActionView::Nothing)
        } else {
            match msg {
                Msg::Results { source, result, .. } => self.results_received(source, result),
                Msg::Progress { idx, seen, total, .. } => (
                    self.with_status(idx, StatusView::Downloading { seen, total }),
                    ActionView::Nothing,
                ),
                Msg::Uploading { idx, .. } => (
                    self.with_status(idx, StatusView::Uploading),
                    ActionView::Nothing,
                ),
                Msg::Done { idx, saved, drive, .. } => (
                    self.download_done(
                        idx,
                        StatusView::Done { file: saved.file, name: saved.name@ },
                        drive,
                    ),
                    ActionView::Nothing,
                ),
                Msg::Failed { idx, error, .. } => (
                    self.with_status(idx, StatusView::Failed(error@)),
                    ActionView::Nothing,
                ),
            }
        }
    }
}

/// The search that a message belongs to.
pub open spec fn generation_of(msg: Msg) -> u64 {
    match msg {
        Msg::Results { generation, .. } => generation,
        Msg::Progress { generation, .. } => generation,
        Msg::Uploading { generation, .. } => generation,
        Msg::Done { generation, .. } => generation,
        Msg::Failed { generation, .. } => generation,
    }
}

fn append_total(out: &mut String, total: Option<usize>)
    ensures
        final(out)@ == old(out)@ + of_total(total),
{
    let ghost before = out@;
    match total {
        Some(total) => {
            out.append("/");
            out.append(number::to_decimal(total as u64).as_str());
            assert(out@ =~= before + of_total(Some(total)));
        },
        None => {
            assert(out@ =~= before + of_total(None));
        },
    }
}

/// The page, and the total number of pages where it is known.
pub fn page_of_total(page: usize, total: Option<usize>) -> (r: String)
    ensures
        r@ == number::decimal(page as nat) + of_total(total),
{
    let mut out = number::to_decimal(page as u64);
    append_total(&mut out, total);
    out
}

fn describe_results(count: usize, page: usize, total: Option<usize>) -> (r: String)
    ensures
        r@ == results_text(count as nat, page, total),
{
    if count == 0 {
        return "no results".to_owned();
    }
    let mut out = number::to_decimal(count as u64);
    out.append("/");
    out.append(number::to_decimal(RESULTS_PER_PAGE as u64).as_str());
    out.append(" results — page ");
    out.append(number::to_decimal(page as u64).as_str());
    append_total(&mut out, total);
    if count == RESULTS_PER_PAGE {
        out.append(" — n for next page");
    } else {
        assert(out@ + seq![] =~= out@);
    }
    out.append(" — Space marks, d downloads");
    out
}

impl App {
    fn append_books(&mut self, books: Vec<Book>)
        ensures
            final(self)@ == (AppView {
                entries: old(self)@.entries + fresh_entries(crate::source::books_view(books@)),
                ..old(self)@
            }),
    {
        let ghost start = self@;
        let ghost all = books@;
        let ghost fresh = fresh_entries(crate::source::books_view(all));
        assert(start.entries + fresh.take(0) =~= start.entries);
        for book in it: books
            invariant
                it.seq() == all,
                fresh == fresh_entries(crate::source::books_view(all)),
                self@ == (AppView {
                    entries: start.entries + fresh.take(it.index() as int),
                    ..start
                }),
        {
            let ghost i = it.index() as int;
            let ghost before = self@.entries;
            self.entries.push(Entry { book, marked: false, status: Status::Idle, started: None });
            proof {
                let entry = self.entries@.last();
                assert(self@.entries =~= before.push(entry@));
                assert(entry@ == fresh[i]);
                assert(self@.entries =~= start.entries + fresh.take(i + 1));
            }
        }
        assert(fresh.take(all.len() as int) =~= fresh);
    }

    fn complete(&mut self) -> (r: Action)
        requires
            old(self)@.complete().1 is Search ==> old(self).generation < u64::MAX,
        ensures
            (final(self)@, r@) == old(self)@.complete(),
    {
        let ghost start = self@;
        if self.entries.len() > RESULTS_PER_PAGE {
            self.entries.truncate(RESULTS_PER_PAGE);
            assert(self@.entries =~= start.entries.take(RESULTS_PER_PAGE as int));
        }
        let total = self.exact_total_pages();
        self.total_pages = total;
        if self.entries.len() == 0 {
            if let Some(total) = total {
                if self.page > total {
                    self.page = if total < 1 {
                        1
                    } else {
                        total
                    };
                    return self.load_page();
                }
            }
        }
        let count: usize = self.entries.len();
        self.status = describe_results(count, self.page, total);
        if count > 0 && self.mode == Mode::Search {
            self.mode = Mode::Browse;
        }
        Action::Nothing
    }

    fn set_status(&mut self, idx: usize, status: Status)
        ensures
            final(self)@ == old(self)@.with_status(idx, status@),
    {
        let ghost start = self@;
        if idx < self.entries.len() {
            self.entries[idx].status = status;
            assert(self@.entries =~= start.with_status(idx, status@).entries);
        }
    }

    fn set_done(&mut self, idx: usize, status: Status, drive: Option<Result<String, String>>)
        ensures
            final(self)@ == old(self)@.download_done(idx, status@, drive),
    {
        let ghost start = self@;
        if idx < self.entries.len() {
            self.entries[idx].status = status;
            self.entries[idx].marked = false;
            assert(self@.entries =~= start.download_done(idx, status@, drive).entries);
            match drive {
                Some(Ok(target)) => {
                    let mut text = "uploaded to Google Drive: ".to_owned();
                    text.append(target.as_str());
                    self.status = text;
                },
                Some(Err(error)) => {
                    let mut text = "saved locally; Google Drive: ".to_owned();
                    text.append(error.as_str());
                    self.status = text;
                },
                None => {},
            }
        }
    }

    fn add_results(&mut self, source: Catalog, result: Result<SearchResults, String>) -> (r: Action)
        requires
            old(self)@.results_received(source, result).1 is Search ==> old(self).generation
                < u64::MAX,
        ensures
            (final(self)@, r@) == old(self)@.results_received(source, result),
    {
        let ghost start = self@;
        if self.pending > 0 {
            self.pending = self.pending - 1;
        }
        match result {
            Ok(results) => {
                if let Some(total) = results.total_pages {
                    crate::app::note_total(&mut self.source_total_pages, source, total);
                }
                self.append_books(results.books);
            },
            Err(error) => {
                let mut status = source.name().to_owned();
                status.append(": ");
                status.append(error.as_str());
                self.status = status;
            },
        }
        assert(self@ =~= start.listed(source, result));
        if self.pending == 0 {
            self.complete()
        } else {
            Action::Nothing
        }
    }

    /// Take in what came back from the background.
    pub fn receive(&mut self, msg: Msg) -> (r: Action)
        requires
            old(self)@.received(msg).1 is Search ==> old(self).generation < u64::MAX,
        ensures
            (final(self)@, r@) == old(self)@.received(msg),
    {
        match msg {
            Msg::Results { generation, source, result } => {
                if generation == self.generation {
                    return self.add_results(source, result);
                }
            },
            Msg::Progress { generation, idx, seen, total } => {
                if generation == self.generation {
                    self.set_status(idx, Status::Downloading { seen, total });
                }
            },
            Msg::Uploading { generation, idx } => {
                if generation == self.generation {
                    self.set_status(idx, Status::Uploading);
                }
            },
            Msg::Done { generation, idx, saved, drive } => {
                if generation == self.generation {
                    self.set_done(idx, Status::Done(saved), drive);
                }
            },
            Msg::Failed { generation, idx, error } => {
                if generation == self.generation {
                    self.set_status(idx, Status::Failed(error));
                }
            },
        }
        Action::Nothing
    }
}

// ---- laws -------------------------------------------------------------------------

/// What comes back for a search that the user moved on from changes nothing.
pub proof fn law_stale_replies_are_dropped(app: AppView, msg: Msg)
    requires
        generation_of(msg) != app.generation,
    ensures
        app.received(msg) == (app, ActionView::Nothing),
{
}

/// Once a new search is started, replies to the one before are dropped.
pub proof fn law_new_search_drops_old_replies(app: AppView, msg: Msg)
    requires
        app.generation < u64::MAX,
        app.load_page().1 is Search,
        generation_of(msg) <= app.generation,
    ensures
        app.load_page().0.received(msg) == (app.load_page().0, ActionView::Nothing),
{
}

/// Whatever comes back, the page stays a page and the catalogs stay as they
/// are.
pub proof fn law_replies_keep_the_app_sound(app: AppView, msg: Msg)
    requires
        app.wf(),
    ensures
        app.received(msg).0.wf(),
        app.received(msg).0.sources == app.sources,
        app.received(msg).0.input == app.input,
        app.received(msg).0.exit == app.exit,
{
}

/// A successful download clears the mark and nothing else on the list.
pub proof fn law_done_clears_the_mark(app: AppView, msg: Msg)
    requires
        msg is Done,
        generation_of(msg) == app.generation,
        msg->Done_idx < app.entries.len(),
    ensures
        ({
            let next = app.received(msg).0;
            let idx = msg->Done_idx as int;
            &&& !next.entries[idx].marked
            &&& next.entries[idx].status is Done
            &&& next.entries[idx].book == app.entries[idx].book
            &&& next.entries.len() == app.entries.len()
            &&& forall|i: int|
                0 <= i < app.entries.len() && i != idx ==> #[trigger] next.entries[i]
                    == app.entries[i]
        }),
{
}

/// Progress reports leave the books and the marks alone.
pub proof fn law_progress_keeps_the_marks(app: AppView, msg: Msg, i: int)
    requires
        msg is Progress || msg is Uploading || msg is Failed,
        0 <= i < app.entries.len(),
    ensures
        app.received(msg).0.entries.len() == app.entries.len(),
        app.received(msg).0.entries[i].book == app.entries[i].book,
        app.received(msg).0.entries[i].marked == app.entries[i].marked,
{
}

/// Once all catalogs have answered, no more results are listed than fit on a
/// page.
pub proof fn law_a_page_holds_no_more(app: AppView, msg: Msg)
    requires
        msg is Results,
        generation_of(msg) == app.generation,
        app.pending <= 1,
    ensures
        app.received(msg).0.entries.len() <= RESULTS_PER_PAGE,
{
}

/// While catalogs are still to answer, a reply adds its books at the end and
/// takes none away.
pub proof fn law_replies_add_up(app: AppView, msg: Msg, i: int)
    requires
        msg is Results,
        generation_of(msg) == app.generation,
        app.pending > 1,
        0 <= i < app.entries.len(),
    ensures
        app.received(msg).0.pending == app.pending - 1,
        app.received(msg).0.entries.len() >= app.entries.len(),
        app.received(msg).0.entries[i] == app.entries[i],
{
}

/// A page past the last one is never left standing: the last page is loaded
/// instead.
pub proof fn law_empty_tail_falls_back(app: AppView)
    requires
        app.entries.len() == 0,
        app.exact_total_pages() is Some,
        app.page > app.exact_total_pages()->0,
    ensures
        ({
            let last = if app.exact_total_pages()->0 < 1 {
                1
            } else {
                app.exact_total_pages()->0
            };
            app.complete() == AppView {
                page: last,
                total_pages: app.exact_total_pages(),
                ..app
            }.load_page()
        }),
{
}

/// What comes back leaves the highlight on the list, as long as it is on the
/// part of the list that is kept.
pub proof fn law_replies_keep_the_highlight(app: AppView, msg: Msg)
    requires
        app.selected < app.entries.len(),
        app.selected < RESULTS_PER_PAGE,
    ensures
        app.received(msg).0.selected < app.received(msg).0.entries.len(),
        app.received(msg).0.selected == app.selected,
{
}

/// Only a search that is started gets a new number.
pub proof fn law_replies_count_searches(app: AppView, msg: Msg)
    requires
        app.received(msg).1 is Search ==> app.generation < u64::MAX,
    ensures
        app.received(msg).0.generation == app.generation + (if app.received(msg).1 is Search {
            1int
        } else {
            0int
        }),
{
}

/// While other catalogs are still to answer, a reply adds exactly its books at
/// the end of the list, in the order in which they came, each of them unmarked
/// and idle; nothing else changes but what is known of the catalog's pages.
pub proof fn law_reply_lists_its_books(app: AppView, source: Catalog, results: SearchResults)
    requires
        app.pending > 1,
    ensures
        ({
            let reply = Msg::Results {
                generation: app.generation,
                source,
                result: Ok(results),
            };
            let (next, action) = app.received(reply);
            let listed = app.entries.len() as int;
            &&& action is Nothing
            &&& next.pending == app.pending - 1
            &&& next.entries.len() == listed + results.books@.len()
            &&& forall|i: int| 0 <= i < listed ==> #[trigger] next.entries[i] == app.entries[i]
            &&& forall|i: int|
                listed <= i < next.entries.len() ==> {
                    &&& (#[trigger] next.entries[i]).book == results.books@[i - listed]@
                    &&& !next.entries[i].marked
                    &&& next.entries[i].status is Idle
                    &&& next.entries[i].started is None
                }
            &&& next == AppView {
                entries: next.entries,
                pending: next.pending,
                source_total_pages: next.source_total_pages,
                ..app
            }
        }),
{
}

/// Of the number of pages that a catalog reports, note is taken; that of the
/// other catalogs stays. A catalog that reports none changes nothing.
pub proof fn law_reply_tells_of_pages(
    app: AppView,
    source: Catalog,
    results: SearchResults,
    other: Catalog,
)
    ensures
        ({
            let known = app.listed(source, Ok(results)).source_total_pages;
            &&& results.total_pages is None ==> known == app.source_total_pages
            &&& results.total_pages is Some ==> known.contains_key(source) && known[source]
                == results.total_pages->0
            &&& other != source ==> known.contains_key(other)
                == app.source_total_pages.contains_key(other) && (known.contains_key(other)
                ==> known[other] == app.source_total_pages[other])
        }),
{
}

/// A catalog that fails adds no book; the user is told which one it is and why.
pub proof fn law_failure_is_told(app: AppView, source: Catalog, error: String)
    requires
        app.pending > 1,
    ensures
        ({
            let reply = Msg::Results {
                generation: app.generation,
                source,
                result: Err(error),
            };
            app.received(reply) == (
                AppView {
                    pending: (app.pending - 1) as usize,
                    status: source.tag() + ": "@ + error@,
                    ..app
                },
                ActionView::Nothing,
            )
        }),
{
}

/// The last reply fills the page: the books that were listed before and those
/// of the reply follow each other, fifty of them at most, and if there are any
/// the search box gives way to the list.
pub proof fn law_last_reply_fills_the_page(app: AppView, source: Catalog, results: SearchResults)
    requires
        app.pending <= 1,
        app.entries.len() + results.books@.len() > 0,
    ensures
        ({
            let reply = Msg::Results {
                generation: app.generation,
                source,
                result: Ok(results),
            };
            let (next, action) = app.received(reply);
            let listed = app.entries.len() as int;
            let all = listed + results.books@.len();
            &&& action is Nothing
            &&& next.pending == 0
            &&& next.entries.len() == (if all < 50 {
                all
            } else {
                50
            })
            &&& forall|i: int|
                0 <= i < listed && i < 50 ==> #[trigger] next.entries[i] == app.entries[i]
            &&& forall|i: int|
                listed <= i < next.entries.len() ==> {
                    &&& (#[trigger] next.entries[i]).book == results.books@[i - listed]@
                    &&& !next.entries[i].marked
                    &&& next.entries[i].status is Idle
                    &&& next.entries[i].started is None
                }
            &&& app.mode == Mode::Search ==> next.mode == Mode::Browse
            &&& app.mode != Mode::Search ==> next.mode == app.mode
            &&& next.page == app.page
            &&& next.selected == app.selected
            &&& next.generation == app.generation
            &&& next.total_pages == app.listed(source, Ok(results)).exact_total_pages()
            &&& next.status == results_text(next.entries.len(), app.page, next.total_pages)
        }),
{
}

/// Where nothing was found on a page that may be the last one, that is told and
/// the search box stays.
pub proof fn law_nothing_found_is_told(app: AppView, source: Catalog, results: SearchResults)
    requires
        app.pending <= 1,
        app.entries.len() + results.books@.len() == 0,
        app.listed(source, Ok(results)).exact_total_pages() matches Some(total) ==> app.page
            <= total,
    ensures
        ({
            let reply = Msg::Results {
                generation: app.generation,
                source,
                result: Ok(results),
            };
            let (next, action) = app.received(reply);
            &&& action is Nothing
            &&& next.status == "no results"@
            &&& next.mode == app.mode
            &&& next.entries.len() == 0
            &&& next.page == app.page
        }),
{
}

/// Where the page is past the last one, the last one is loaded; the first one
/// where there is none at all.
pub proof fn law_last_page_is_loaded(app: AppView)
    requires
        app.entries.len() == 0,
        app.exact_total_pages() is Some,
        app.page > app.exact_total_pages()->0,
    ensures
        ({
            let (next, action) = app.complete();
            let total = app.exact_total_pages()->0;
            &&& total >= 1 ==> next.page == total
            &&& total == 0 ==> next.page == 1
            &&& action matches ActionView::Search(job) ==> job.page == next.page
        }),
{
}

/// What is told of the results: how many there are of the fifty that fit on a
/// page, which page it is, of how many where that is known, and that there may
/// be more where the page is full.
pub proof fn law_results_are_told(count: nat, page: usize, total: Option<usize>)
    ensures
        ({
            let told = results_text(count, page, total);
            let known = match total {
                Some(total) => "/"@ + number::decimal(total as nat),
                None => ""@,
            };
            let head = number::decimal(count) + "/50 results — page "@ + number::decimal(
                page as nat,
            ) + known;
            &&& count == 0 ==> told == "no results"@
            &&& 0 < count && count != 50 ==> told == head + " — Space marks, d downloads"@
            &&& count == 50 ==> told == head
                + " — n for next page — Space marks, d downloads"@
        }),
{
    let told = results_text(count, page, total);
    reveal_strlit("");
    reveal_strlit("/");
    reveal_strlit("/50 results — page ");
    reveal_strlit(" results — page ");
    reveal_strlit(" — n for next page");
    reveal_strlit(" — Space marks, d downloads");
    reveal_strlit(" — n for next page — Space marks, d downloads");
    number::law_decimal_digits(5, 0);
    number::law_decimal_digits(0, 5);
    number::law_decimal_digits(0, 0);
    let fifty = number::decimal(50);
    assert(fifty == number::decimal(5) + number::decimal(0));
    assert(fifty =~= seq!['5', '0']);
    assert("/"@ + fifty + " results — page "@ =~= "/50 results — page "@);
    let known = match total {
        Some(total) => "/"@ + number::decimal(total as nat),
        None => ""@,
    };
    assert(of_total(total) =~= known);
    let head = number::decimal(count) + "/50 results — page "@ + number::decimal(
        page as nat,
    ) + known;
    assert(number::decimal(count) + "/"@ + fifty + " results — page "@ + number::decimal(
        page as nat,
    ) + of_total(total) =~= head);
    if count == 50 {
        assert(told =~= head + " — n for next page — Space marks, d downloads"@);
    } else if count > 0 {
        assert(told =~= head + " — Space marks, d downloads"@);
    }
}

/// A report on a download changes the status of that book to what is reported,
/// and nothing else at all; a report on a book that is not on the list changes
/// nothing.
pub proof fn law_reports_change_one_status(app: AppView, msg: Msg, idx: usize, i: int)
    requires
        generation_of(msg) == app.generation,
        match msg {
            Msg::Progress { idx: at, .. } => at == idx,
            Msg::Uploading { idx: at, .. } => at == idx,
            Msg::Failed { idx: at, .. } => at == idx,
            _ => false,
        },
        0 <= i < app.entries.len(),
    ensures
        ({
            let (next, action) = app.received(msg);
            &&& action is Nothing
            &&& next == AppView { entries: next.entries, ..app }
            &&& next.entries.len() == app.entries.len()
            &&& i != idx ==> next.entries[i] == app.entries[i]
            &&& i == idx ==> next.entries[i] == EntryView {
                status: next.entries[i].status,
                ..app.entries[i]
            }
            &&& i == idx ==> match msg {
                Msg::Progress { seen, total, .. } => next.entries[i].status
                    == StatusView::Downloading { seen, total },
                Msg::Uploading { .. } => next.entries[i].status == StatusView::Uploading,
                Msg::Failed { error, .. } => next.entries[i].status == StatusView::Failed(error@),
                _ => false,
            }
        }),
{
}

/// A finished download is noted with its file, loses its mark, and the user is
/// told what became of the copy on Google Drive where one was asked for.
pub proof fn law_finished_download(app: AppView, msg: Msg)
    requires
        msg is Done,
        generation_of(msg) == app.generation,
        msg->Done_idx < app.entries.len(),
    ensures
        ({
            let next = app.received(msg).0;
            let idx = msg->Done_idx as int;
            &&& next.entries[idx] == EntryView {
                status: StatusView::Done {
                    file: msg->Done_saved.file,
                    name: msg->Done_saved.name@,
                },
                marked: false,
                ..app.entries[idx]
            }
            &&& next == AppView { entries: next.entries, status: next.status, ..app }
            &&& msg->Done_drive is None ==> next.status == app.status
            &&& msg->Done_drive matches Some(Ok(target)) ==> next.status
                == "uploaded to Google Drive: "@ + target@
            &&& msg->Done_drive matches Some(Err(error)) ==> next.status
                == "saved locally; Google Drive: "@ + error@
        }),
{
}

/// The page, and behind a slash how many there are where that is known.
pub proof fn law_page_of_total(page: usize, total: Option<usize>, r: String)
    requires
        call_ensures(page_of_total, (page, total), r),
    ensures
        total is None ==> r@ == number::decimal(page as nat),
        total is Some ==> r@ == number::decimal(page as nat) + seq!['/'] + number::decimal(
            total->0 as nat,
        ),
{
    reveal_strlit("/");
    assert("/"@ =~= seq!['/']);
    if total is None {
        assert(r@ =~= number::decimal(page as nat));
    } else {
        assert(r@ =~= number::decimal(page as nat) + seq!['/'] + number::decimal(
            total->0 as nat,
        ));
    }
}

/// What a reply does to the app that is running.
pub proof fn law_replies_are_received(app: &mut App, msg: Msg, r: Action)
    requires
        call_ensures(App::receive, (app, msg), r),
    ensures
        (final(app)@, r@) == old(app)@.received(msg),
{
}

/// Where the last catalog fails, the books of the others are shown all the same.
pub proof fn law_last_failure_shows_the_rest(app: AppView, source: Catalog, error: String, i: int)
    requires
        app.pending <= 1,
        0 <= i < app.entries.len(),
        i < 50,
    ensures
        ({
            let reply = Msg::Results {
                generation: app.generation,
                source,
                result: Err(error),
            };
            let (next, action) = app.received(reply);
            &&& action is Nothing
            &&& next.pending == 0
            &&& next.entries[i] == app.entries[i]
            &&& next.entries.len() == (if app.entries.len() < 50 {
                app.entries.len()
            } else {
                50
            })
            &&& next.source_total_pages == app.source_total_pages
            &&& next.total_pages == app.exact_total_pages()
            &&& next.status == results_text(next.entries.len(), app.page, next.total_pages)
            &&& app.mode == Mode::Search ==> next.mode == Mode::Browse
            &&& app.mode != Mode::Search ==> next.mode == app.mode
        }),
{
}

/// A report on a book that is not on the list changes nothing.
pub proof fn law_reports_on_other_books(app: AppView, msg: Msg)
    requires
        match msg {
            Msg::Results { .. } => false,
            Msg::Progress { idx, .. } => idx >= app.entries.len(),
            Msg::Uploading { idx, .. } => idx >= app.entries.len(),
            Msg::Done { idx, .. } => idx >= app.entries.len(),
            Msg::Failed { idx, .. } => idx >= app.entries.len(),
        },
    ensures
        app.received(msg) == (app, ActionView::Nothing),
{
}

} // verus!
