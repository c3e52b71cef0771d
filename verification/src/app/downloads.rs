//! Downloading the books that the user picked, and opening them.

use vstd::prelude::*;

use crate::app::{Action, ActionView, App, AppView, DownloadJob, DownloadJobView};
use crate::app::{EntryView, SourceEntry, Status, StatusView};
use crate::number;
use crate::preferences;
use crate::source::{Catalog, Format, FormatView, Source};
use crate::text;

verus! {

/// The formats to download, the best one first.
pub open spec fn preferred_formats() -> Seq<FormatView> {
    seq![FormatView::Epub, FormatView::Pdf, FormatView::Txt]
}

/// A book is marked.
pub open spec fn any_marked(entries: Seq<EntryView>) -> bool {
    exists|i: int| 0 <= i < entries.len() && (#[trigger] entries[i]).marked
}

/// The places of the marked books, among the first `n`.
pub open spec fn marked_places(entries: Seq<EntryView>, n: int) -> Seq<int>
    decreases n,
{
    if n <= 0 {
        seq![]
    } else if entries[n - 1].marked {
        marked_places(entries, n - 1).push(n - 1)
    } else {
        marked_places(entries, n - 1)
    }
}

/// The first catalog with the name, at or after `from`.
pub open spec fn source_named(
    sources: Seq<SourceEntry>,
    name: Seq<char>,
    from: int,
) -> Option<Catalog>
    decreases sources.len() - from,
{
    if from < 0 || from >= sources.len() {
        None
    } else if sources[from].source.tag() == name {
        Some(sources[from].source)
    } else {
        source_named(sources, name, from + 1)
    }
}

/// The download that the book at `idx` needs. A book that is being downloaded,
/// has no files or comes from no known catalog needs none.
pub open spec fn job_for(
    entries: Seq<EntryView>,
    sources: Seq<SourceEntry>,
    idx: int,
) -> Option<DownloadJobView> {
    let book = entries[idx].book;
    let choice = crate::source::choice(book.downloads, preferred_formats());
    let source = source_named(sources, book.source, 0);
    if entries[idx].status is Downloading || choice is None || source is None {
        None
    } else {
        Some(
            DownloadJobView {
                idx,
                book,
                download: book.downloads[choice->0],
                source: source->0,
            },
        )
    }
}

/// The downloads that the books at the first `n` of the places need.
pub open spec fn jobs_for(
    entries: Seq<EntryView>,
    sources: Seq<SourceEntry>,
    places: Seq<int>,
    n: int,
) -> Seq<DownloadJobView>
    decreases n,
{
    if n <= 0 {
        seq![]
    } else {
        let before = jobs_for(entries, sources, places, n - 1);
        match job_for(entries, sources, places[n - 1]) {
            Some(job) => before.push(job),
            None => before,
        }
    }
}

/// One of the downloads belongs to the book at `idx`.
pub open spec fn has_job(jobs: Seq<DownloadJobView>, idx: int) -> bool {
    exists|k: int| 0 <= k < jobs.len() && (#[trigger] jobs[k]).idx == idx
}

/// The books with those that are to be downloaded queued.
pub open spec fn queued(
    entries: Seq<EntryView>,
    jobs: Seq<DownloadJobView>,
    now: u128,
) -> Seq<EntryView> {
    Seq::new(
        entries.len(),
        |i: int|
            if has_job(jobs, i) {
                EntryView { status: StatusView::Queued, started: Some(now), ..entries[i] }
            } else {
                entries[i]
            },
    )
}

impl AppView {
    /// The places of the books to download: the marked ones, or just the
    /// highlighted one if nothing is marked.
    pub open spec fn targets(self) -> Seq<int> {
        if any_marked(self.entries) {
            marked_places(self.entries, self.entries.len() as int)
        } else if self.entries.len() == 0 {
            seq![]
        } else {
            seq![self.selected as int]
        }
    }

    /// The books to download are all on the list.
    pub open spec fn can_download(self) -> bool {
        any_marked(self.entries) || self.entries.len() == 0 || self.selected < self.entries.len()
    }

    /// The downloads to be started.
    pub open spec fn jobs(self) -> Seq<DownloadJobView> {
        jobs_for(self.entries, self.sources, self.targets(), self.targets().len() as int)
    }

    /// The downloads are started.
    pub open spec fn download_marked(self, now: u128) -> (AppView, ActionView) {
        if self.targets().len() == 0 {
            (AppView { status: "nothing to download"@, ..self }, ActionView::Nothing)
        } else {
            (
                AppView { entries: queued(self.entries, self.jobs(), now), ..self },
                ActionView::Download {
                    generation: self.generation,
                    jobs: self.jobs(),
                    folder: preferences::folder_of(text::trimmed(self.download_dir_input.text)),
                    remote: text::trimmed(self.drive_remote_input.text),
                },
            )
        }
    }

    /// It is told where the downloads go.
    pub open spec fn downloads_started(self, count: usize, directory: Seq<char>) -> AppView {
        AppView {
            status: "downloading "@ + number::decimal(count as nat) + " file(s) into "@ + directory,
            ..self
        }
    }

    /// The highlighted book is opened, if it has been downloaded.
    pub open spec fn open_selected(self) -> (AppView, ActionView) {
        if self.selected >= self.entries.len() {
            (self, ActionView::Nothing)
        } else {
            match self.entries[self.selected as int].status {
                StatusView::Done { file, .. } => (self, ActionView::Open(file)),
                _ => (
                    AppView { status: "download it first (d)"@, ..self },
                    ActionView::Nothing,
                ),
            }
        }
    }

    /// It is told which program opened the book, or why none did.
    pub open spec fn opened(self, result: Result<String, String>) -> AppView {
        AppView {
            status: match result {
                Ok(reader) => "opened with "@ + reader@,
                Err(error) => "could not open: "@ + error@,
            },
            ..self
        }
    }
}

impl App {
    fn targets(&self) -> (r: Vec<usize>)
        ensures
            crate::order::places_view(r@) == self@.targets(),
    {
        let ghost all = self@.entries;
        let mut out: Vec<usize> = Vec::new();
        let mut i: usize = 0;
        assert(crate::order::places_view(out@) =~= marked_places(all, 0));
        while i < self.entries.len()
            invariant
                i <= self.entries@.len(),
                all == self@.entries,
                crate::order::places_view(out@) == marked_places(all, i as int),
                (out@.len() > 0) == (exists|k: int| 0 <= k < i && (#[trigger] all[k]).marked),
            decreases self.entries@.len() - i,
        {
            let ghost before = out@;
            assert(all[i as int] == self.entries@[i as int]@);
            if self.entries[i].marked {
                out.push(i);
                assert(crate::order::places_view(out@) =~= crate::order::places_view(before).push(
                    i as int,
                ));
            }
            i += 1;
        }
        if out.len() == 0 && self.entries.len() > 0 {
            out.push(self.selected);
            assert(crate::order::places_view(out@) =~= seq![self.selected as int]);
        } else if self.entries.len() == 0 {
            assert(crate::order::places_view(out@) =~= seq![]);
        }
        out
    }

    fn source_of(&self, name: &str) -> (r: Option<Catalog>)
        ensures
            r == source_named(self.sources@, name@, 0),
    {
        let mut i: usize = 0;
        while i < self.sources.len()
            invariant
                i <= self.sources@.len(),
                source_named(self.sources@, name@, 0) == source_named(
                    self.sources@,
                    name@,
                    i as int,
                ),
            decreases self.sources@.len() - i,
        {
            let source = self.sources[i].source;
            if text::same(source.name(), name) {
                return Some(source);
            }
            i += 1;
        }
        None
    }

    fn job_for(&self, idx: usize) -> (r: Option<DownloadJob>)
        requires
            idx < self.entries@.len(),
        ensures
            match r {
                Some(job) => job_for(self@.entries, self.sources@, idx as int) == Some(job@),
                None => job_for(self@.entries, self.sources@, idx as int) is None,
            },
    {
        let entry = &self.entries[idx];
        assert(self@.entries[idx as int] == entry@);
        if let Status::Downloading { .. } = entry.status {
            return None;
        }
        let prefer: [Format; 3] = [Format::Epub, Format::Pdf, Format::Txt];
        assert(crate::source::formats_view(prefer@) =~= preferred_formats());
        let download = match entry.book.preferred(&prefer) {
            Some(download) => download.clone(),
            None => return None,
        };
        let source = match self.source_of(entry.book.source) {
            Some(source) => source,
            None => return None,
        };
        proof {
            crate::source::law_choice_is_the_best(
                entry.book@.downloads,
                preferred_formats(),
                0,
            );
        }
        Some(DownloadJob { idx, book: entry.book.clone(), download, source })
    }

    /// Whether the books to download are all on the list.
    pub fn can_download(&self) -> (r: bool)
        ensures
            r == self@.can_download(),
    {
        let ghost all = self@.entries;
        let mut i: usize = 0;
        while i < self.entries.len()
            invariant
                i <= self.entries@.len(),
                all == self@.entries,
                forall|k: int| 0 <= k < i ==> !(#[trigger] all[k]).marked,
            decreases self.entries@.len() - i,
        {
            assert(all[i as int] == self.entries@[i as int]@);
            if self.entries[i].marked {
                return true;
            }
            i += 1;
        }
        self.entries.len() == 0 || self.selected < self.entries.len()
    }

    /// Start downloading the marked books, or just the highlighted one if
    /// nothing is marked.
    pub fn download_marked(&mut self, now: u128) -> (r: Action)
        requires
            old(self)@.can_download(),
        ensures
            (final(self)@, r@) == old(self)@.download_marked(now),
    {
        let ghost start = self@;
        let targets = self.targets();
        if targets.len() == 0 {
            self.status = "nothing to download".to_owned();
            return Action::Nothing;
        }
        proof {
            lemma_targets(start);
        }
        let ghost places = crate::order::places_view(targets@);
        let mut jobs: Vec<DownloadJob> = Vec::new();
        let mut i: usize = 0;
        assert(crate::app::jobs_view(jobs@) =~= jobs_for(start.entries, start.sources, places, 0));
        while i < targets.len()
            invariant
                i <= targets@.len(),
                self@ == start,
                places == crate::order::places_view(targets@),
                forall|k: int| 0 <= k < places.len() ==> 0 <= #[trigger] places[k]
                    < start.entries.len(),
                crate::app::jobs_view(jobs@) == jobs_for(
                    start.entries,
                    start.sources,
                    places,
                    i as int,
                ),
                forall|k: int| 0 <= k < jobs@.len() ==> (#[trigger] jobs@[k]).idx
                    < start.entries.len(),
            decreases targets@.len() - i,
        {
            assert(0 <= places[i as int] < start.entries.len());
            let ghost before = jobs@;
            if let Some(job) = self.job_for(targets[i]) {
                jobs.push(job);
                assert(crate::app::jobs_view(jobs@) =~= crate::app::jobs_view(before).push(job@));
            }
            i += 1;
        }
        let ghost wanted = crate::app::jobs_view(jobs@);
        let mut k: usize = 0;
        assert(queued(start.entries, wanted.take(0), now) =~= start.entries);
        while k < jobs.len()
            invariant
                k <= jobs@.len(),
                wanted == crate::app::jobs_view(jobs@),
                forall|k: int| 0 <= k < jobs@.len() ==> (#[trigger] jobs@[k]).idx
                    < start.entries.len(),
                self@ == (AppView {
                    entries: queued(start.entries, wanted.take(k as int), now),
                    ..start
                }),
            decreases jobs@.len() - k,
        {
            let idx: usize = jobs[k].idx;
            let ghost before = self@.entries;
            assert(before.len() == start.entries.len());
            self.entries[idx].status = Status::Queued;
            self.entries[idx].started = Some(now);
            proof {
                let after = queued(start.entries, wanted.take(k + 1), now);
                assert(wanted.take(k + 1)[k as int].idx == idx);
                assert forall|i: int| 0 <= i < after.len() implies self@.entries[i] == after[i] by {
                    if i == idx {
                        assert(has_job(wanted.take(k + 1), i));
                        assert(self@.entries[i] == self.entries@[i]@);
                        assert(before[i].book == start.entries[i].book);
                    } else {
                        assert(self@.entries[i] == before[i]);
                        lemma_has_job(wanted, k as int, i);
                    }
                }
                assert(self@.entries =~= after);
            }
            k += 1;
        }
        assert(wanted.take(k as int) =~= wanted);
        let folder = preferences::expand_tilde(
            text::trim(self.download_dir_input.text().as_str()).as_str(),
        );
        let remote = text::trim(self.drive_remote_input.text().as_str());
        Action::Download { generation: self.generation, jobs, folder, remote }
    }

    /// Tell where the downloads go.
    pub fn downloads_started(&mut self, count: usize, directory: &str)
        ensures
            final(self)@ == old(self)@.downloads_started(count, directory@),
    {
        let mut status = "downloading ".to_owned();
        status.append(number::to_decimal(count as u64).as_str());
        status.append(" file(s) into ");
        status.append(directory);
        self.status = status;
    }

    /// Open the highlighted download in the installed desktop book reader.
    pub fn open_selected(&mut self) -> (r: Action)
        ensures
            (final(self)@, r@) == old(self)@.open_selected(),
    {
        if self.selected >= self.entries.len() {
            return Action::Nothing;
        }
        assert(self@.entries[self.selected as int] == self.entries@[self.selected as int]@);
        if let Status::Done(saved) = &self.entries[self.selected].status {
            return Action::Open(saved.file);
        }
        self.status = "download it first (d)".to_owned();
        Action::Nothing
    }

    /// Tell which program opened the book, or why none did.
    pub fn opened(&mut self, result: Result<String, String>)
        ensures
            final(self)@ == old(self)@.opened(result),
    {
        self.status = match result {
            Ok(reader) => {
                let mut status = "opened with ".to_owned();
                status.append(reader.as_str());
                status
            },
            Err(error) => {
                let mut status = "could not open: ".to_owned();
                status.append(error.as_str());
                status
            },
        };
    }
}

proof fn lemma_has_job(jobs: Seq<DownloadJobView>, k: int, i: int)
    requires
        0 <= k < jobs.len(),
        jobs[k].idx != i,
    ensures
        has_job(jobs.take(k + 1), i) == has_job(jobs.take(k), i),
{
    if has_job(jobs.take(k + 1), i) {
        let j = choose|j: int| 0 <= j < k + 1 && (#[trigger] jobs.take(k + 1)[j]).idx == i;
        assert(jobs.take(k)[j].idx == i);
    }
    if has_job(jobs.take(k), i) {
        let j = choose|j: int| 0 <= j < k && (#[trigger] jobs.take(k)[j]).idx == i;
        assert(jobs.take(k + 1)[j].idx == i);
    }
}

proof fn lemma_marked_places(entries: Seq<EntryView>, n: int)
    requires
        0 <= n <= entries.len(),
    ensures
        forall|k: int|
            0 <= k < marked_places(entries, n).len() ==> 0 <= #[trigger] marked_places(
                entries,
                n,
            )[k] < n && entries[marked_places(entries, n)[k]].marked,
    decreases n,
{
    if n > 0 {
        lemma_marked_places(entries, n - 1);
        let before = marked_places(entries, n - 1);
        assert forall|k: int| 0 <= k < marked_places(entries, n).len() implies 0
            <= #[trigger] marked_places(entries, n)[k] < n && entries[marked_places(
            entries,
            n,
        )[k]].marked by {
            if k < before.len() {
                assert(marked_places(entries, n)[k] == before[k]);
            }
        }
    }
}

proof fn lemma_targets(app: AppView)
    requires
        app.can_download(),
    ensures
        forall|k: int|
            0 <= k < app.targets().len() ==> 0 <= #[trigger] app.targets()[k]
                < app.entries.len(),
{
    lemma_marked_places(app.entries, app.entries.len() as int);
}

// ---- laws -------------------------------------------------------------------------

/// What is marked is what is downloaded: where books are marked, every download
/// belongs to a marked one.
pub proof fn law_only_marked_books_are_downloaded(app: AppView, k: int)
    requires
        any_marked(app.entries),
        0 <= k < app.jobs().len(),
    ensures
        0 <= app.jobs()[k].idx < app.entries.len(),
        app.entries[app.jobs()[k].idx].marked,
        app.jobs()[k].book == app.entries[app.jobs()[k].idx].book,
{
    lemma_marked_places(app.entries, app.entries.len() as int);
    lemma_jobs(app.entries, app.sources, app.targets(), app.targets().len() as int, k);
}

proof fn lemma_jobs(
    entries: Seq<EntryView>,
    sources: Seq<SourceEntry>,
    places: Seq<int>,
    n: int,
    k: int,
)
    requires
        0 <= n <= places.len(),
        0 <= k < jobs_for(entries, sources, places, n).len(),
    ensures
        exists|p: int|
            0 <= p < n && job_for(entries, sources, #[trigger] places[p]) == Some(
                jobs_for(entries, sources, places, n)[k],
            ),
    decreases n,
{
    let before = jobs_for(entries, sources, places, n - 1);
    if k < before.len() {
        lemma_jobs(entries, sources, places, n - 1, k);
        assert(jobs_for(entries, sources, places, n)[k] == before[k]);
        let p = choose|p: int|
            0 <= p < n - 1 && job_for(entries, sources, #[trigger] places[p]) == Some(before[k]);
        assert(job_for(entries, sources, places[p]) == Some(
            jobs_for(entries, sources, places, n)[k],
        ));
    } else {
        assert(job_for(entries, sources, places[n - 1]) == Some(
            jobs_for(entries, sources, places, n)[k],
        ));
    }
}

/// A download that is under way is not started again.
pub proof fn law_downloads_are_not_repeated(app: AppView, now: u128, i: int)
    requires
        0 <= i < app.entries.len(),
        app.entries[i].status is Downloading,
    ensures
        !has_job(app.jobs(), i),
        app.download_marked(now).0.entries[i] == app.entries[i],
{
    if has_job(app.jobs(), i) {
        let k = choose|k: int| 0 <= k < app.jobs().len() && (#[trigger] app.jobs()[k]).idx == i;
        lemma_jobs(app.entries, app.sources, app.targets(), app.targets().len() as int, k);
    }
}

/// Starting downloads changes neither the books nor the marks.
pub proof fn law_downloads_keep_the_list(app: AppView, now: u128, i: int)
    requires
        0 <= i < app.entries.len(),
    ensures
        app.download_marked(now).0.entries.len() == app.entries.len(),
        app.download_marked(now).0.entries[i].book == app.entries[i].book,
        app.download_marked(now).0.entries[i].marked == app.entries[i].marked,
{
}

/// The file that is downloaded is the book's first epub where it has one, else
/// its first pdf, else its first plain text, else its first file.
pub proof fn law_best_file_is_downloaded(app: AppView, k: int)
    requires
        0 <= k < app.jobs().len(),
    ensures
        ({
            let file = app.jobs()[k].download;
            let files = app.jobs()[k].book.downloads;
            let epub = exists|j: int|
                0 <= j < files.len() && (#[trigger] files[j]).format == FormatView::Epub;
            let pdf = exists|j: int|
                0 <= j < files.len() && (#[trigger] files[j]).format == FormatView::Pdf;
            let plain = exists|j: int|
                0 <= j < files.len() && (#[trigger] files[j]).format == FormatView::Txt;
            &&& epub ==> file.format == FormatView::Epub
            &&& !epub && pdf ==> file.format == FormatView::Pdf
            &&& !epub && !pdf && plain ==> file.format == FormatView::Txt
            &&& !epub && !pdf && !plain ==> file == files[0]
            &&& exists|i: int|
                0 <= i < files.len() && file == #[trigger] files[i] && forall|j: int|
                    0 <= j < i ==> (#[trigger] files[j]).format != file.format
        }),
{
    lemma_jobs(app.entries, app.sources, app.targets(), app.targets().len() as int, k);
    let files = app.jobs()[k].book.downloads;
    let wanted = preferred_formats();
    assert(wanted[0] == FormatView::Epub && wanted[1] == FormatView::Pdf && wanted[2]
        == FormatView::Txt);
    crate::source::law_choice_is_the_best(files, wanted, 0);
    crate::source::law_choice_is_the_best(files, wanted, 1);
    crate::source::law_choice_is_the_best(files, wanted, 2);
    let i = crate::source::choice(files, wanted)->0;
    assert forall|j: int| 0 <= j < i implies (#[trigger] files[j]).format != files[i].format by {
        crate::source::law_choice_is_the_first(files, wanted, j);
    }
    assert(app.jobs()[k].download == files[i]);
    lemma_choice_without_wish(files);
}

proof fn lemma_choice_without_wish(files: Seq<crate::source::DownloadView>)
    ensures
        files.len() > 0 && (forall|j: int|
            0 <= j < files.len() ==> (#[trigger] files[j]).format != FormatView::Epub
                && files[j].format != FormatView::Pdf && files[j].format != FormatView::Txt)
            ==> crate::source::choice(files, preferred_formats()) == Some(0int),
{
    if files.len() > 0 && (forall|j: int|
        0 <= j < files.len() ==> (#[trigger] files[j]).format != FormatView::Epub
            && files[j].format != FormatView::Pdf && files[j].format != FormatView::Txt) {
        let wanted = preferred_formats();
        assert forall|m: int| 0 <= m < wanted.len() implies !crate::source::offers(
            files,
            #[trigger] wanted[m],
        ) by {
            assert(m == 0 || m == 1 || m == 2);
        }
        crate::source::lemma_no_wish(files, wanted);
    }
}

/// Every download belongs to a book of the list, and to the catalog that the
/// book came from.
pub proof fn law_downloads_come_from_their_catalog(app: AppView, k: int)
    requires
        app.can_download(),
        0 <= k < app.jobs().len(),
    ensures
        ({
            let job = app.jobs()[k];
            &&& 0 <= job.idx < app.entries.len()
            &&& job.book == app.entries[job.idx].book
            &&& job.source.tag() == job.book.source
            &&& exists|i: int|
                0 <= i < app.sources.len() && (#[trigger] app.sources[i]).source == job.source
            &&& !(app.entries[job.idx].status is Downloading)
        }),
{
    lemma_targets(app);
    lemma_jobs(app.entries, app.sources, app.targets(), app.targets().len() as int, k);
    lemma_source_named(app.sources, app.jobs()[k].book.source, 0);
}

proof fn lemma_source_named(sources: Seq<SourceEntry>, name: Seq<char>, from: int)
    requires
        0 <= from,
    ensures
        source_named(sources, name, from) matches Some(source) ==> source.tag() == name && exists|
            i: int,
        |
            from <= i < sources.len() && (#[trigger] sources[i]).source == source,
        source_named(sources, name, from) is None ==> forall|i: int|
            from <= i < sources.len() ==> (#[trigger] sources[i]).source.tag() != name,
    decreases sources.len() - from,
{
    if from < sources.len() {
        if sources[from].source.tag() != name {
            lemma_source_named(sources, name, from + 1);
        } else {
            assert(sources[from].source.tag() == name);
        }
    }
}

/// Every marked book that has a file, comes from a catalog of the app, and is
/// not being downloaded yet is downloaded.
pub proof fn law_every_marked_book_is_downloaded(app: AppView, i: int, s: int)
    requires
        0 <= i < app.entries.len(),
        app.entries[i].marked,
        !(app.entries[i].status is Downloading),
        app.entries[i].book.downloads.len() > 0,
        0 <= s < app.sources.len(),
        app.sources[s].source.tag() == app.entries[i].book.source,
    ensures
        exists|k: int| 0 <= k < app.jobs().len() && (#[trigger] app.jobs()[k]).idx == i,
{
    assert(any_marked(app.entries));
    lemma_place_of_mark(app.entries, app.entries.len() as int, i);
    let places = app.targets();
    let p = choose|p: int| 0 <= p < places.len() && #[trigger] places[p] == i;
    lemma_source_named(app.sources, app.entries[i].book.source, 0);
    assert(app.sources[s].source.tag() == app.entries[i].book.source);
    crate::source::law_choice_is_the_best(app.entries[i].book.downloads, preferred_formats(), 0);
    lemma_job_listed(app.entries, app.sources, places, places.len() as int, p);
    let jobs = jobs_for(app.entries, app.sources, places, places.len() as int);
    let k = choose|k: int| 0 <= k < jobs.len() && (#[trigger] jobs[k]).idx == places[p];
    assert(app.jobs()[k].idx == i);
}

proof fn lemma_place_of_mark(entries: Seq<EntryView>, n: int, i: int)
    requires
        0 <= i < n <= entries.len(),
        entries[i].marked,
    ensures
        exists|p: int|
            0 <= p < marked_places(entries, n).len() && #[trigger] marked_places(entries, n)[p]
                == i,
    decreases n,
{
    let all = marked_places(entries, n);
    if i == n - 1 {
        assert(all[all.len() - 1] == i);
    } else {
        lemma_place_of_mark(entries, n - 1, i);
        let before = marked_places(entries, n - 1);
        let p = choose|p: int| 0 <= p < before.len() && #[trigger] before[p] == i;
        assert(all[p] == i);
    }
}

proof fn lemma_job_listed(
    entries: Seq<EntryView>,
    sources: Seq<SourceEntry>,
    places: Seq<int>,
    n: int,
    p: int,
)
    requires
        0 <= p < n <= places.len(),
        job_for(entries, sources, places[p]) is Some,
    ensures
        exists|k: int|
            0 <= k < jobs_for(entries, sources, places, n).len() && (#[trigger] jobs_for(
                entries,
                sources,
                places,
                n,
            )[k]).idx == places[p],
    decreases n,
{
    let all = jobs_for(entries, sources, places, n);
    let before = jobs_for(entries, sources, places, n - 1);
    if p == n - 1 {
        assert(all[before.len() as int].idx == places[p]);
    } else {
        lemma_job_listed(entries, sources, places, n - 1, p);
        let k = choose|k: int| 0 <= k < before.len() && (#[trigger] before[k]).idx == places[p];
        assert(all[k].idx == places[p]);
    }
}

/// Where nothing is marked, the highlighted book is downloaded and no other.
pub proof fn law_highlighted_book_is_downloaded(app: AppView, s: int)
    requires
        forall|i: int| 0 <= i < app.entries.len() ==> !(#[trigger] app.entries[i]).marked,
        app.selected < app.entries.len(),
        !(app.entries[app.selected as int].status is Downloading),
        app.entries[app.selected as int].book.downloads.len() > 0,
        0 <= s < app.sources.len(),
        app.sources[s].source.tag() == app.entries[app.selected as int].book.source,
    ensures
        app.jobs().len() == 1,
        app.jobs()[0].idx == app.selected,
        app.jobs()[0].book == app.entries[app.selected as int].book,
{
    let at = app.selected as int;
    assert(!any_marked(app.entries));
    assert(app.targets() =~= seq![at]);
    lemma_source_named(app.sources, app.entries[at].book.source, 0);
    assert(app.sources[s].source.tag() == app.entries[at].book.source);
    crate::source::law_choice_is_the_best(app.entries[at].book.downloads, preferred_formats(), 0);
    reveal_with_fuel(jobs_for, 2);
    assert(app.jobs() =~= seq![job_for(app.entries, app.sources, at)->0]);
}

/// The books are downloaded in the order in which they are listed, each once.
pub proof fn law_downloads_follow_the_list(app: AppView, i: int, j: int)
    requires
        0 <= i < j < app.jobs().len(),
    ensures
        app.jobs()[i].idx < app.jobs()[j].idx,
{
    let places = app.targets();
    if any_marked(app.entries) {
        lemma_places_rise(app.entries, app.entries.len() as int);
    }
    lemma_jobs_rise(app.entries, app.sources, places, places.len() as int);
}

proof fn lemma_places_rise(entries: Seq<EntryView>, n: int)
    requires
        0 <= n <= entries.len(),
    ensures
        forall|i: int, j: int|
            0 <= i < j < marked_places(entries, n).len() ==> #[trigger] marked_places(entries, n)[i]
                < #[trigger] marked_places(entries, n)[j],
    decreases n,
{
    if n > 0 {
        lemma_places_rise(entries, n - 1);
        lemma_marked_places(entries, n - 1);
    }
}

proof fn lemma_jobs_rise(
    entries: Seq<EntryView>,
    sources: Seq<SourceEntry>,
    places: Seq<int>,
    n: int,
)
    requires
        0 <= n <= places.len(),
        forall|i: int, j: int|
            0 <= i < j < places.len() ==> #[trigger] places[i] < #[trigger] places[j],
    ensures
        forall|i: int, j: int|
            0 <= i < j < jobs_for(entries, sources, places, n).len() ==> (#[trigger] jobs_for(
                entries,
                sources,
                places,
                n,
            )[i]).idx < (#[trigger] jobs_for(entries, sources, places, n)[j]).idx,
        forall|i: int|
            0 <= i < jobs_for(entries, sources, places, n).len() ==> (#[trigger] jobs_for(
                entries,
                sources,
                places,
                n,
            )[i]).idx <= places[n - 1],
    decreases n,
{
    if n > 0 {
        lemma_jobs_rise(entries, sources, places, n - 1);
        let before = jobs_for(entries, sources, places, n - 1);
        let all = jobs_for(entries, sources, places, n);
        assert forall|i: int| 0 <= i < all.len() implies (#[trigger] all[i]).idx
            <= places[n - 1] by {
            if i < before.len() {
                assert(all[i] == before[i]);
                assert(n - 1 > 0);
                assert(places[n - 2] < places[n - 1]);
            }
        }
        assert forall|i: int, j: int| 0 <= i < j < all.len() implies (#[trigger] all[i]).idx < (
        #[trigger] all[j]).idx by {
            assert(all[i] == before[i]);
            if j < before.len() {
                assert(all[j] == before[j]);
            } else {
                assert(n - 1 > 0);
                assert(places[n - 2] < places[n - 1]);
            }
        }
    }
}

/// What is to be downloaded is queued from now on, what is not stays as it is;
/// the files go to the folder and the remote of the settings, without the space
/// around them.
pub proof fn law_downloads_are_queued(app: AppView, now: u128, i: int)
    requires
        0 <= i < app.entries.len(),
    ensures
        ({
            let (next, action) = app.download_marked(now);
            let wanted = exists|k: int|
                0 <= k < app.jobs().len() && (#[trigger] app.jobs()[k]).idx == i;
            &&& wanted ==> next.entries[i].status is Queued && next.entries[i].started == Some(
                now,
            )
            &&& !wanted ==> next.entries[i] == app.entries[i]
            &&& next == AppView { entries: next.entries, ..app }
            &&& action matches ActionView::Download { generation, jobs, folder, remote }
                && generation == app.generation && jobs == app.jobs() && folder
                == preferences::folder_of(text::trimmed(app.download_dir_input.text)) && remote
                == text::trimmed(app.drive_remote_input.text)
        }),
{
    if any_marked(app.entries) {
        let m = choose|m: int| 0 <= m < app.entries.len() && (#[trigger] app.entries[m]).marked;
        lemma_place_of_mark(app.entries, app.entries.len() as int, m);
    }
    assert(has_job(app.jobs(), i) == exists|k: int|
        0 <= k < app.jobs().len() && (#[trigger] app.jobs()[k]).idx == i);
}

/// Without a list there is nothing to download, and the user is told.
pub proof fn law_nothing_to_download(app: AppView, now: u128)
    requires
        app.entries.len() == 0,
    ensures
        app.download_marked(now) == (
            AppView { status: "nothing to download"@, ..app },
            ActionView::Nothing,
        ),
{
}

/// A book is opened once it has been downloaded, and before that the user is
/// told to download it.
pub proof fn law_only_downloads_are_opened(app: AppView)
    requires
        app.selected < app.entries.len(),
    ensures
        ({
            let (next, action) = app.open_selected();
            &&& app.entries[app.selected as int].status matches StatusView::Done {
                file,
                ..
            } ==> next == app && action == ActionView::Open(file)
            &&& !(app.entries[app.selected as int].status is Done) ==> next == AppView {
                status: "download it first (d)"@,
                ..app
            } && action is Nothing
        }),
{
}

/// The user is told how many files go where, and how opening a book went.
pub proof fn law_downloads_are_told(
    app: AppView,
    count: usize,
    directory: Seq<char>,
    opened: String,
)
    ensures
        app.downloads_started(count, directory) == (AppView {
            status: "downloading "@ + number::decimal(count as nat) + " file(s) into "@ + directory,
            ..app
        }),
        app.opened(Ok(opened)) == (AppView { status: "opened with "@ + opened@, ..app }),
        app.opened(Err(opened)) == (AppView { status: "could not open: "@ + opened@, ..app }),
{
}

/// What starting downloads does to the app that is running.
pub proof fn law_downloads_are_started(app: &mut App, now: u128, r: Action)
    requires
        call_ensures(App::download_marked, (app, now), r),
    ensures
        (final(app)@, r@) == old(app)@.download_marked(now),
{
}

} // verus!
