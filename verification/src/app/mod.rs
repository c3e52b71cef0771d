//! The state of the app: what is shown, what is selected, and what every event
//! does to it.
//!
//! The app itself neither draws nor reads, searches or downloads. It takes one
//! event after the other and answers each with the [`Action`] that is to be
//! carried out.

use vstd::prelude::*;

use crate::field::{TextField, TextView};
use crate::files::{LibraryEntry, LibraryEntryView};
use crate::preferences::{Folder, FolderView, Preferences, PreferencesView};
use crate::source::{Book, BookView, Catalog, Download, DownloadView, SearchResults, Source};

pub mod downloads;
pub mod input;
pub mod pages;
pub mod replies;
pub mod rows;

verus! {

/// How many results are shown at once.
pub const RESULTS_PER_PAGE: usize = 50;

/// What to do first.
pub const WELCOME: &'static str = "type a title or author, then press Enter";

// ---- results ----------------------------------------------------------------------

/// A downloaded file.
#[derive(Debug)]
pub struct Saved {
    /// By which the caller knows the file.
    pub file: usize,
    pub name: String,
}

/// How far the download of a book is.
#[derive(Debug)]
pub enum Status {
    Idle,
    /// Task spawned, response not started streaming yet.
    Queued,
    Downloading { seen: u64, total: Option<u64> },
    Uploading,
    Done(Saved),
    Failed(String),
}

/// The mathematical counterpart of [`Status`].
pub enum StatusView {
    Idle,
    Queued,
    Downloading { seen: u64, total: Option<u64> },
    Uploading,
    Done { file: usize, name: Seq<char> },
    Failed(Seq<char>),
}

impl View for Status {
    type V = StatusView;

    open spec fn view(&self) -> StatusView {
        match self {
            Status::Idle => StatusView::Idle,
            Status::Queued => StatusView::Queued,
            Status::Downloading { seen, total } => StatusView::Downloading {
                seen: *seen,
                total: *total,
            },
            Status::Uploading => StatusView::Uploading,
            Status::Done(saved) => StatusView::Done { file: saved.file, name: saved.name@ },
            Status::Failed(error) => StatusView::Failed(error@),
        }
    }
}

/// A book in the list of results.
#[derive(Debug)]
pub struct Entry {
    pub book: Book,
    pub marked: bool,
    pub status: Status,
    /// When the download was queued, for the rate and ETA readouts.
    pub started: Option<u128>,
}

/// The mathematical counterpart of [`Entry`].
#[verifier::ext_equal]
pub struct EntryView {
    pub book: BookView,
    pub marked: bool,
    pub status: StatusView,
    pub started: Option<u128>,
}

impl View for Entry {
    type V = EntryView;

    open spec fn view(&self) -> EntryView {
        EntryView {
            book: self.book@,
            marked: self.marked,
            status: self.status@,
            started: self.started,
        }
    }
}

/// What a list of results holds.
pub open spec fn entries_view(list: Seq<Entry>) -> Seq<EntryView> {
    Seq::new(list.len(), |i: int| list[i]@)
}

// ---- catalogs ---------------------------------------------------------------------

/// A catalog plus whether the user wants it searched.
#[derive(Debug, Clone, Copy, PartialEq, Eq, Structural)]
pub struct SourceEntry {
    pub source: Catalog,
    pub enabled: bool,
}

/// How many pages a catalog has for the current query.
#[derive(Debug, Clone, Copy, PartialEq, Eq, Structural)]
pub struct PageTotal {
    pub source: Catalog,
    pub total: usize,
}

/// The number of pages that each catalog reported; the first entry of a
/// catalog counts.
pub open spec fn totals_map(list: Seq<PageTotal>) -> Map<Catalog, usize>
    decreases list.len(),
{
    if list.len() == 0 {
        Map::empty()
    } else {
        totals_map(list.drop_first()).insert(list[0].source, list[0].total)
    }
}

/// The number of pages that a catalog reported.
pub open spec fn total_of(totals: Map<Catalog, usize>, source: Catalog) -> Option<usize> {
    if totals.contains_key(source) {
        Some(totals[source])
    } else {
        None
    }
}

/// The number of pages that a catalog reported, if it did.
pub fn lookup(list: &Vec<PageTotal>, source: Catalog) -> (r: Option<usize>)
    ensures
        r == total_of(totals_map(list@), source),
{
    let mut i: usize = 0;
    assert(list@.skip(0) =~= list@);
    while i < list.len()
        invariant
            i <= list@.len(),
            total_of(totals_map(list@), source) == total_of(
                totals_map(list@.skip(i as int)),
                source,
            ),
        decreases list@.len() - i,
    {
        assert(list@.skip(i as int)[0] == list@[i as int]);
        assert(list@.skip(i as int).drop_first() =~= list@.skip(i + 1));
        if list[i].source == source {
            return Some(list[i].total);
        }
        i += 1;
    }
    None
}

proof fn lemma_totals_push(list: Seq<PageTotal>, source: Catalog, total: usize)
    requires
        forall|i: int| 0 <= i < list.len() ==> (#[trigger] list[i]).source != source,
    ensures
        totals_map(list.push(PageTotal { source, total })) == totals_map(list).insert(
            source,
            total,
        ),
    decreases list.len(),
{
    let added = list.push(PageTotal { source, total });
    if list.len() == 0 {
        assert(added.drop_first() =~= list);
    } else {
        assert forall|i: int| 0 <= i < list.drop_first().len() implies (
        #[trigger] list.drop_first()[i]).source != source by {
            assert(list.drop_first()[i] == list[i + 1]);
        }
        lemma_totals_push(list.drop_first(), source, total);
        assert(added.drop_first() =~= list.drop_first().push(PageTotal { source, total }));
        assert(added[0] == list[0] && list[0].source != source);
    }
    assert(totals_map(added) =~= totals_map(list).insert(source, total));
}

proof fn lemma_totals_update(list: Seq<PageTotal>, at: int, total: usize)
    requires
        0 <= at < list.len(),
        forall|i: int| 0 <= i < at ==> (#[trigger] list[i]).source != list[at].source,
    ensures
        totals_map(list.update(at, PageTotal { source: list[at].source, total })) == totals_map(
            list,
        ).insert(list[at].source, total),
    decreases list.len(),
{
    let source = list[at].source;
    let changed = list.update(at, PageTotal { source, total });
    if at == 0 {
        assert(changed.drop_first() =~= list.drop_first());
    } else {
        assert forall|i: int| 0 <= i < at - 1 implies (#[trigger] list.drop_first()[i]).source
            != list.drop_first()[at - 1].source by {
            assert(list.drop_first()[i] == list[i + 1]);
        }
        lemma_totals_update(list.drop_first(), at - 1, total);
        assert(changed.drop_first() =~= list.drop_first().update(
            at - 1,
            PageTotal { source, total },
        ));
        assert(list[0].source != source);
    }
    assert(totals_map(changed) =~= totals_map(list).insert(source, total));
}

/// Note how many pages a catalog has.
pub fn note_total(list: &mut Vec<PageTotal>, source: Catalog, total: usize)
    ensures
        totals_map(final(list)@) == totals_map(old(list)@).insert(source, total),
{
    let mut i: usize = 0;
    while i < list.len()
        invariant
            i <= list@.len(),
            list@ == old(list)@,
            forall|k: int| 0 <= k < i ==> (#[trigger] list@[k]).source != source,
        decreases list@.len() - i,
    {
        if list[i].source == source {
            proof {
                lemma_totals_update(list@, i as int, total);
            }
            list.set(i, PageTotal { source, total });
            return ;
        }
        i += 1;
    }
    proof {
        lemma_totals_push(list@, source, total);
    }
    list.push(PageTotal { source, total });
}

// ---- the app ----------------------------------------------------------------------

/// What the keyboard works on.
#[derive(Debug, Clone, Copy, PartialEq, Eq, Structural)]
pub enum Mode {
    Search,
    Browse,
    /// Picking which catalogs to query.
    Sources,
    /// Browsing books already present in the download directory.
    Library,
    /// Editing persistent storage settings.
    Settings,
}

/// A part of the screen, in cells.
#[derive(Debug, Clone, Copy, PartialEq, Eq, Structural)]
pub struct Area {
    pub x: u16,
    pub y: u16,
    pub width: u16,
    pub height: u16,
}

/// The state of the app.
#[derive(Debug)]
pub struct App {
    pub sources: Vec<SourceEntry>,
    pub source_cursor: usize,
    /// What stands in the search box.
    pub input: TextField,
    pub mode: Mode,
    pub mode_before_sources: Mode,
    pub entries: Vec<Entry>,
    pub selected: usize,
    pub page: usize,
    pub total_pages: Option<usize>,
    pub source_total_pages: Vec<PageTotal>,
    /// Bumped on every new search, so replies from an abandoned one are dropped.
    pub generation: u64,
    /// How many catalogs have not answered yet.
    pub pending: usize,
    pub spinner: i8,
    /// Animation tick, bumped once per frame; drives the indeterminate bar.
    pub frame: u64,
    pub status: String,
    pub library: Vec<LibraryEntry>,
    pub library_selected: usize,
    pub results_area: Area,
    pub results_offset: usize,
    pub library_area: Area,
    pub library_offset: usize,
    pub download_dir_input: TextField,
    pub drive_remote_input: TextField,
    pub settings_cursor: usize,
    pub rclone_available: bool,
    pub exit: bool,
}

/// The mathematical counterpart of [`App`].
#[verifier::ext_equal]
pub struct AppView {
    pub sources: Seq<SourceEntry>,
    pub source_cursor: usize,
    pub input: TextView,
    pub mode: Mode,
    pub mode_before_sources: Mode,
    pub entries: Seq<EntryView>,
    pub selected: usize,
    pub page: usize,
    pub total_pages: Option<usize>,
    pub source_total_pages: Map<Catalog, usize>,
    pub generation: u64,
    pub pending: usize,
    pub spinner: i8,
    pub frame: u64,
    pub status: Seq<char>,
    pub library: Seq<LibraryEntryView>,
    pub library_selected: usize,
    pub results_area: Area,
    pub results_offset: usize,
    pub library_area: Area,
    pub library_offset: usize,
    pub download_dir_input: TextView,
    pub drive_remote_input: TextView,
    pub settings_cursor: usize,
    pub rclone_available: bool,
    pub exit: bool,
}

impl View for App {
    type V = AppView;

    open spec fn view(&self) -> AppView {
        AppView {
            sources: self.sources@,
            source_cursor: self.source_cursor,
            input: self.input@,
            mode: self.mode,
            mode_before_sources: self.mode_before_sources,
            entries: entries_view(self.entries@),
            selected: self.selected,
            page: self.page,
            total_pages: self.total_pages,
            source_total_pages: totals_map(self.source_total_pages@),
            generation: self.generation,
            pending: self.pending,
            spinner: self.spinner,
            frame: self.frame,
            status: self.status@,
            library: crate::files::library_view(self.library@),
            library_selected: self.library_selected,
            results_area: self.results_area,
            results_offset: self.results_offset,
            library_area: self.library_area,
            library_offset: self.library_offset,
            download_dir_input: self.download_dir_input@,
            drive_remote_input: self.drive_remote_input@,
            settings_cursor: self.settings_cursor,
            rclone_available: self.rclone_available,
            exit: self.exit,
        }
    }
}

impl AppView {
    /// What holds of the app at all times.
    pub open spec fn wf(self) -> bool {
        &&& self.page >= 1
        &&& self.mode_before_sources != Mode::Sources
        &&& self.settings_cursor <= 1
    }
}

/// No part of the screen at all.
pub open spec fn nowhere() -> Area {
    Area { x: 0, y: 0, width: 0, height: 0 }
}

/// The catalogs, each switched on unless the user has switched it off.
pub open spec fn chosen(catalogs: Seq<Catalog>, preferences: PreferencesView) -> Seq<SourceEntry> {
    Seq::new(
        catalogs.len(),
        |i: int| SourceEntry {
            source: catalogs[i],
            enabled: preferences.wants(catalogs[i].tag()),
        },
    )
}

impl AppView {
    /// The app when it is started.
    pub open spec fn fresh(
        catalogs: Seq<Catalog>,
        preferences: PreferencesView,
        rclone_available: bool,
    ) -> AppView {
        AppView {
            sources: chosen(catalogs, preferences),
            source_cursor: 0,
            input: TextView::of(seq![]),
            mode: Mode::Search,
            mode_before_sources: Mode::Search,
            entries: seq![],
            selected: 0,
            page: 1,
            total_pages: None,
            source_total_pages: Map::empty(),
            generation: 0,
            pending: 0,
            spinner: 0,
            frame: 0,
            status: WELCOME@,
            library: seq![],
            library_selected: 0,
            results_area: nowhere(),
            results_offset: 0,
            library_area: nowhere(),
            library_offset: 0,
            download_dir_input: TextView::of(preferences.download_dir),
            drive_remote_input: TextView::of(preferences.google_drive_remote),
            settings_cursor: 0,
            rclone_available,
            exit: false,
        }
    }
}

impl App {
    /// The app when it is started.
    pub fn new(catalogs: Vec<Catalog>, preferences: Preferences, rclone_available: bool) -> (r:
        App)
        ensures
            r@ == AppView::fresh(catalogs@, preferences@, rclone_available),
            r@.wf(),
    {
        let mut sources: Vec<SourceEntry> = Vec::new();
        let mut i: usize = 0;
        while i < catalogs.len()
            invariant
                i <= catalogs@.len(),
                sources@ == chosen(catalogs@, preferences@).take(i as int),
            decreases catalogs@.len() - i,
        {
            let source = catalogs[i];
            let enabled = preferences.wants(source.name());
            sources.push(SourceEntry { source, enabled });
            i += 1;
            assert(sources@ =~= chosen(catalogs@, preferences@).take(i as int));
        }
        assert(sources@ =~= chosen(catalogs@, preferences@));
        let nowhere = Area { x: 0, y: 0, width: 0, height: 0 };
        let r = App {
            sources,
            source_cursor: 0,
            input: TextField::new(String::new()),
            mode: Mode::Search,
            mode_before_sources: Mode::Search,
            entries: Vec::new(),
            selected: 0,
            page: 1,
            total_pages: None,
            source_total_pages: Vec::new(),
            generation: 0,
            pending: 0,
            spinner: 0,
            frame: 0,
            status: WELCOME.to_owned(),
            library: Vec::new(),
            library_selected: 0,
            results_area: nowhere,
            results_offset: 0,
            library_area: nowhere,
            library_offset: 0,
            download_dir_input: TextField::new(preferences.download_dir),
            drive_remote_input: TextField::new(preferences.google_drive_remote),
            settings_cursor: 0,
            rclone_available,
            exit: false,
        };
        assert(r@ =~= AppView::fresh(catalogs@, preferences@, rclone_available));
        r
    }
}

// ---- what is to be done -----------------------------------------------------------

/// A text that the user can edit.
#[derive(Debug, Clone, Copy, PartialEq, Eq, Structural)]
pub enum Field {
    Query,
    DownloadFolder,
    DriveRemote,
}

/// What follows once the settings are saved.
#[derive(Debug, Clone, Copy, PartialEq, Eq, Structural)]
pub enum After {
    /// The settings stay open.
    Stay,
    /// The search box opens.
    Search,
    /// The search tab opens.
    Tab,
}

/// A search to be started.
#[derive(Debug)]
pub struct SearchJob {
    pub generation: u64,
    pub query: String,
    pub page: usize,
    pub sources: Vec<Catalog>,
}

/// The mathematical counterpart of [`SearchJob`].
#[verifier::ext_equal]
pub struct SearchJobView {
    pub generation: u64,
    pub query: Seq<char>,
    pub page: usize,
    pub sources: Seq<Catalog>,
}

/// A download to be started.
#[derive(Debug)]
pub struct DownloadJob {
    pub idx: usize,
    pub book: Book,
    pub download: Download,
    pub source: Catalog,
}

/// The mathematical counterpart of [`DownloadJob`].
pub struct DownloadJobView {
    pub idx: int,
    pub book: BookView,
    pub download: DownloadView,
    pub source: Catalog,
}

impl View for DownloadJob {
    type V = DownloadJobView;

    open spec fn view(&self) -> DownloadJobView {
        DownloadJobView {
            idx: self.idx as int,
            book: self.book@,
            download: self.download@,
            source: self.source,
        }
    }
}

/// What a list of downloads to be started holds.
pub open spec fn jobs_view(list: Seq<DownloadJob>) -> Seq<DownloadJobView> {
    Seq::new(list.len(), |i: int| list[i]@)
}

/// What is to be done in answer to an event.
#[derive(Debug)]
pub enum Action {
    Nothing,
    /// Save the preferences; tell if that fails.
    SaveSources(Preferences),
    /// Create the folder; tell how that went.
    PrepareFolder { folder: Folder, after: After },
    /// Save the preferences; tell how that went.
    SaveSettings { preferences: Preferences, after: After },
    /// List the folder; hand back what is in it.
    Scan(Folder),
    /// Open the file in a reader; tell how that went.
    Open(usize),
    /// Start the search.
    Search(SearchJob),
    /// Start the downloads; tell into which folder.
    Download { generation: u64, jobs: Vec<DownloadJob>, folder: Folder, remote: String },
}

/// The mathematical counterpart of [`Action`].
#[verifier::ext_equal]
pub enum ActionView {
    Nothing,
    SaveSources(PreferencesView),
    PrepareFolder { folder: FolderView, after: After },
    SaveSettings { preferences: PreferencesView, after: After },
    Scan(FolderView),
    Open(usize),
    Search(SearchJobView),
    Download {
        generation: u64,
        jobs: Seq<DownloadJobView>,
        folder: FolderView,
        remote: Seq<char>,
    },
}

impl View for SearchJob {
    type V = SearchJobView;

    open spec fn view(&self) -> SearchJobView {
        SearchJobView {
            generation: self.generation,
            query: self.query@,
            page: self.page,
            sources: self.sources@,
        }
    }
}

impl View for Action {
    type V = ActionView;

    open spec fn view(&self) -> ActionView {
        match self {
            Action::Nothing => ActionView::Nothing,
            Action::SaveSources(preferences) => ActionView::SaveSources(preferences@),
            Action::PrepareFolder { folder, after } => ActionView::PrepareFolder {
                folder: folder@,
                after: *after,
            },
            Action::SaveSettings { preferences, after } => ActionView::SaveSettings {
                preferences: preferences@,
                after: *after,
            },
            Action::Scan(folder) => ActionView::Scan(folder@),
            Action::Open(file) => ActionView::Open(*file),
            Action::Search(job) => ActionView::Search(job@),
            Action::Download { generation, jobs, folder, remote } => ActionView::Download {
                generation: *generation,
                jobs: jobs_view(jobs@),
                folder: folder@,
                remote: remote@,
            },
        }
    }
}

// ---- what came back ---------------------------------------------------------------

/// Work finished on a background task, on its way back to the app.
#[derive(Debug)]
pub enum Msg {
    Results { generation: u64, source: Catalog, result: Result<SearchResults, String> },
    Progress { generation: u64, idx: usize, seen: u64, total: Option<u64> },
    Uploading { generation: u64, idx: usize },
    Done { generation: u64, idx: usize, saved: Saved, drive: Option<Result<String, String>> },
    Failed { generation: u64, idx: usize, error: String },
}

// ---- laws -------------------------------------------------------------------------

/// The app starts in the search box, on the first page of an empty list, with
/// nothing typed and nobody asked, and tells the user what to do.
pub proof fn law_app_starts_empty(
    catalogs: Vec<Catalog>,
    preferences: Preferences,
    rclone_available: bool,
    r: App,
)
    requires
        call_ensures(App::new, (catalogs, preferences, rclone_available), r),
    ensures
        r.mode == Mode::Search,
        r.input@.text.len() == 0,
        r.entries@.len() == 0,
        r.library@.len() == 0,
        r.page == 1,
        r.total_pages is None,
        r.generation == 0,
        r.pending == 0,
        r.selected == 0,
        r.source_cursor == 0,
        r.library_selected == 0,
        r.settings_cursor == 0,
        r.results_offset == 0,
        r.library_offset == 0,
        r.mode_before_sources == Mode::Search,
        !r.exit,
        r.status@ == "type a title or author, then press Enter"@,
        r.rclone_available == rclone_available,
        r.download_dir_input@.text == preferences.download_dir@,
        r.drive_remote_input@.text == preferences.google_drive_remote@,
        r.download_dir_input@.cursor == preferences.download_dir@.len(),
        r.drive_remote_input@.cursor == preferences.google_drive_remote@.len(),
{
    assert(entries_view(r.entries@).len() == r.entries@.len());
    assert(crate::files::library_view(r.library@).len() == r.library@.len());
}

/// The catalogs are listed in their order, and one is switched on unless its
/// name is among those that the user has switched off.
pub proof fn law_catalogs_are_switched_on(
    catalogs: Vec<Catalog>,
    preferences: Preferences,
    rclone_available: bool,
    r: App,
    i: int,
)
    requires
        call_ensures(App::new, (catalogs, preferences, rclone_available), r),
        0 <= i < catalogs@.len(),
    ensures
        r.sources@.len() == catalogs@.len(),
        r.sources@[i].source == catalogs@[i],
        r.sources@[i].enabled <==> !crate::text::texts(preferences.disabled_sources@).contains(
            catalogs@[i].tag(),
        ),
{
    assert(r@.sources == r.sources@);
}

/// What a catalog reported is what is looked up; nothing is known of one that
/// did not report.
pub proof fn law_totals_are_looked_up(list: &Vec<PageTotal>, source: Catalog, r: Option<usize>)
    requires
        call_ensures(lookup, (list, source), r),
    ensures
        r is None <==> forall|i: int|
            0 <= i < list@.len() ==> (#[trigger] list@[i]).source != source,
        r matches Some(total) ==> exists|i: int|
            0 <= i < list@.len() && (#[trigger] list@[i]).source == source && list@[i].total
                == total && forall|j: int| 0 <= j < i ==> (#[trigger] list@[j]).source != source,
{
    lemma_lookup(list@, source);
}

proof fn lemma_lookup(list: Seq<PageTotal>, source: Catalog)
    ensures
        !totals_map(list).contains_key(source) <==> forall|i: int|
            0 <= i < list.len() ==> (#[trigger] list[i]).source != source,
        totals_map(list).contains_key(source) ==> exists|i: int|
            0 <= i < list.len() && (#[trigger] list[i]).source == source && list[i].total
                == totals_map(list)[source] && forall|j: int|
                0 <= j < i ==> (#[trigger] list[j]).source != source,
    decreases list.len(),
{
    if list.len() > 0 {
        let rest = list.drop_first();
        lemma_lookup(rest, source);
        assert forall|i: int| 0 <= i < rest.len() implies #[trigger] rest[i] == list[i + 1] by {}
        if list[0].source == source {
            assert(list[0].total == totals_map(list)[source]);
        } else if totals_map(rest).contains_key(source) {
            let i = choose|i: int|
                0 <= i < rest.len() && (#[trigger] rest[i]).source == source && rest[i].total
                    == totals_map(rest)[source] && forall|j: int|
                    0 <= j < i ==> (#[trigger] rest[j]).source != source;
            assert(list[i + 1].source == source);
            assert forall|j: int| 0 <= j < i + 1 implies (#[trigger] list[j]).source != source by {
                if j > 0 {
                    assert(rest[j - 1] == list[j]);
                }
            }
        } else {
            assert forall|i: int| 0 <= i < list.len() implies (#[trigger] list[i]).source
                != source by {
                if i > 0 {
                    assert(rest[i - 1] == list[i]);
                }
            }
        }
    }
}

/// What a catalog reports replaces what it reported before, and leaves what the
/// others reported.
pub proof fn law_totals_are_noted(
    list: &mut Vec<PageTotal>,
    source: Catalog,
    total: usize,
    r: (),
    other: Catalog,
)
    requires
        call_ensures(note_total, (list, source, total), r),
        other != source,
    ensures
        total_of(totals_map(final(list)@), source) == Some(total),
        total_of(totals_map(final(list)@), other) == total_of(totals_map(old(list)@), other),
{
}

} // verus!
