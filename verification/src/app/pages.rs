//! Searching, page by page.

use vstd::prelude::*;

use crate::app::{Action, ActionView, App, AppView, SearchJob};
use crate::app::{SearchJobView, SourceEntry};
use crate::number;
use crate::source::Catalog;
use crate::text;

verus! {

/// The catalog is to be searched: the user wants it, and as far as is known it
/// has such a page.
pub open spec fn has_page(entry: SourceEntry, totals: Map<Catalog, usize>, page: usize) -> bool {
    entry.enabled && (totals.contains_key(entry.source) ==> page <= totals[entry.source])
}

/// The catalogs to be searched for a page, among the first `n`.
pub open spec fn askable(
    sources: Seq<SourceEntry>,
    totals: Map<Catalog, usize>,
    page: usize,
    n: int,
) -> Seq<Catalog>
    decreases n,
{
    if n <= 0 {
        seq![]
    } else if has_page(sources[n - 1], totals, page) {
        askable(sources, totals, page, n - 1).push(sources[n - 1].source)
    } else {
        askable(sources, totals, page, n - 1)
    }
}

/// A text about the search for a page.
pub open spec fn searching_text(query: Seq<char>, page: usize) -> Seq<char> {
    "searching for \""@ + query + "\" — page "@ + number::decimal(page as nat)
}

impl AppView {
    /// The catalogs to be searched for the current page.
    pub open spec fn asked(self) -> Seq<Catalog> {
        askable(self.sources, self.source_total_pages, self.page, self.sources.len() as int)
    }

    /// The search for the current page is started, if there is a query and a
    /// catalog to ask.
    pub open spec fn load_page(self) -> (AppView, ActionView) {
        let query = text::trimmed(self.input.text);
        if query.len() == 0 {
            (AppView { status: "type something first"@, ..self }, ActionView::Nothing)
        } else if self.asked().len() == 0 {
            (AppView { status: "no sources enabled — press s"@, ..self }, ActionView::Nothing)
        } else {
            let generation = (self.generation + 1) as u64;
            (
                AppView {
                    generation,
                    entries: seq![],
                    selected: 0,
                    pending: self.asked().len() as usize,
                    status: searching_text(query, self.page),
                    ..self
                },
                ActionView::Search(
                    SearchJobView { generation, query, page: self.page, sources: self.asked() },
                ),
            )
        }
    }

    /// A new search is started: nothing is known of its pages yet.
    pub open spec fn start_search(self) -> (AppView, ActionView) {
        AppView {
            page: 1,
            total_pages: None,
            source_total_pages: Map::empty(),
            ..self
        }.load_page()
    }

    /// The page that is `delta` pages on, as far as numbers go.
    pub open spec fn page_after(self, delta: int) -> usize {
        if self.page + delta < 1 {
            1
        } else if self.page + delta > usize::MAX {
            usize::MAX
        } else {
            (self.page + delta) as usize
        }
    }

    /// Another page is loaded, unless it is known not to exist.
    pub open spec fn change_page(self, delta: int) -> (AppView, ActionView) {
        let next = self.page_after(delta);
        if next == self.page || (self.total_pages is Some && next > self.total_pages->0) {
            (self, ActionView::Nothing)
        } else {
            AppView { page: next, ..self }.load_page()
        }
    }
}

/// Every enabled catalog reported its number of pages.
pub open spec fn all_known(sources: Seq<SourceEntry>, totals: Map<Catalog, usize>) -> bool {
    forall|i: int|
        0 <= i < sources.len() && (#[trigger] sources[i]).enabled ==> totals.contains_key(
            sources[i].source,
        )
}

/// The largest number of pages that an enabled catalog among the first `n`
/// reported.
pub open spec fn largest(
    sources: Seq<SourceEntry>,
    totals: Map<Catalog, usize>,
    n: int,
) -> Option<usize>
    decreases n,
{
    if n <= 0 {
        None
    } else {
        let before = largest(sources, totals, n - 1);
        let entry = sources[n - 1];
        if !entry.enabled || !totals.contains_key(entry.source) {
            before
        } else {
            let total = totals[entry.source];
            match before {
                Some(most) => Some(
                    if total >= most {
                        total
                    } else {
                        most
                    },
                ),
                None => Some(total),
            }
        }
    }
}

impl AppView {
    /// The number of pages, where every enabled catalog reported its own.
    pub open spec fn exact_total_pages(self) -> Option<usize> {
        if all_known(self.sources, self.source_total_pages) {
            largest(self.sources, self.source_total_pages, self.sources.len() as int)
        } else {
            None
        }
    }
}

impl App {
    fn asked(&self) -> (r: Vec<Catalog>)
        ensures
            r@ == self@.asked(),
    {
        let ghost totals = self@.source_total_pages;
        let mut out: Vec<Catalog> = Vec::new();
        let mut i: usize = 0;
        assert(out@ =~= askable(self.sources@, totals, self.page, 0));
        while i < self.sources.len()
            invariant
                i <= self.sources@.len(),
                totals == self@.source_total_pages,
                out@ == askable(self.sources@, totals, self.page, i as int),
            decreases self.sources@.len() - i,
        {
            let entry = self.sources[i];
            if entry.enabled {
                match crate::app::lookup(&self.source_total_pages, entry.source) {
                    Some(total) => if self.page <= total {
                        out.push(entry.source);
                    },
                    None => out.push(entry.source),
                }
            }
            i += 1;
        }
        out
    }

    /// Start the search for the current page.
    pub fn load_page(&mut self) -> (r: Action)
        requires
            old(self)@.load_page().1 is Search ==> old(self).generation < u64::MAX,
        ensures
            (final(self)@, r@) == old(self)@.load_page(),
    {
        let query = text::trim(self.input.text().as_str());
        if query.as_str().is_empty() {
            self.status = "type something first".to_owned();
            return Action::Nothing;
        }
        let enabled = self.asked();
        if enabled.len() == 0 {
            self.status = "no sources enabled — press s".to_owned();
            return Action::Nothing;
        }
        self.generation = self.generation + 1;
        self.entries = Vec::new();
        self.selected = 0;
        self.pending = enabled.len();
        let mut status = "searching for \"".to_owned();
        status.append(query.as_str());
        status.append("\" — page ");
        status.append(number::to_decimal(self.page as u64).as_str());
        self.status = status;
        assert(self@.entries =~= seq![]);
        Action::Search(
            SearchJob {
                generation: self.generation,
                query,
                page: self.page,
                sources: enabled,
            },
        )
    }

    /// Start a new search for what stands in the search box.
    pub fn start_search(&mut self) -> (r: Action)
        requires
            old(self)@.start_search().1 is Search ==> old(self).generation < u64::MAX,
        ensures
            (final(self)@, r@) == old(self)@.start_search(),
    {
        self.page = 1;
        self.total_pages = None;
        self.source_total_pages = Vec::new();
        assert(self@.source_total_pages =~= Map::empty());
        self.load_page()
    }

    /// Load the page that is `delta` pages on.
    pub fn change_page(&mut self, delta: isize) -> (r: Action)
        requires
            old(self)@.change_page(delta as int).1 is Search ==> old(self).generation < u64::MAX,
        ensures
            (final(self)@, r@) == old(self)@.change_page(delta as int),
    {
        let wide: i128 = self.page as i128 + delta as i128;
        let next: usize = if wide < 1 {
            1
        } else if wide > usize::MAX as i128 {
            usize::MAX
        } else {
            wide as usize
        };
        if next == self.page {
            return Action::Nothing;
        }
        if let Some(total) = self.total_pages {
            if next > total {
                return Action::Nothing;
            }
        }
        self.page = next;
        self.load_page()
    }

    /// The number of pages, where every enabled catalog reported its own.
    pub fn exact_total_pages(&self) -> (r: Option<usize>)
        ensures
            r == self@.exact_total_pages(),
    {
        let ghost totals = self@.source_total_pages;
        let mut most: Option<usize> = None;
        let mut i: usize = 0;
        while i < self.sources.len()
            invariant
                i <= self.sources@.len(),
                totals == self@.source_total_pages,
                forall|k: int|
                    0 <= k < i && (#[trigger] self.sources@[k]).enabled ==> totals.contains_key(
                        self.sources@[k].source,
                    ),
                most == largest(self.sources@, totals, i as int),
            decreases self.sources@.len() - i,
        {
            let entry = self.sources[i];
            if entry.enabled {
                match crate::app::lookup(&self.source_total_pages, entry.source) {
                    Some(total) => {
                        most = match most {
                            Some(known) => Some(
                                if total >= known {
                                    total
                                } else {
                                    known
                                },
                            ),
                            None => Some(total),
                        };
                    },
                    None => {
                        assert(!totals.contains_key(self.sources@[i as int].source));
                        return None;
                    },
                }
            }
            i += 1;
        }
        most
    }
}

// ---- laws -------------------------------------------------------------------------

proof fn lemma_askable(
    sources: Seq<SourceEntry>,
    totals: Map<Catalog, usize>,
    page: usize,
    n: int,
    i: int,
)
    requires
        0 <= n <= sources.len(),
        0 <= i < askable(sources, totals, page, n).len(),
    ensures
        exists|k: int|
            0 <= k < n && has_page(#[trigger] sources[k], totals, page) && sources[k].source
                == askable(sources, totals, page, n)[i],
    decreases n,
{
    let before = askable(sources, totals, page, n - 1);
    if i < before.len() {
        lemma_askable(sources, totals, page, n - 1, i);
        assert(askable(sources, totals, page, n)[i] == before[i]);
    } else {
        assert(has_page(sources[n - 1], totals, page));
    }
}

/// A search asks only catalogs that the user wants, and none for a page that it
/// is known not to have.
pub proof fn law_only_wanted_catalogs_are_asked(app: AppView, i: int)
    requires
        app.load_page().1 is Search,
        0 <= i < app.load_page().1->Search_0.sources.len(),
    ensures
        exists|k: int|
            0 <= k < app.sources.len() && (#[trigger] app.sources[k]).enabled
                && app.sources[k].source == app.load_page().1->Search_0.sources[i],
        ({
            let source = app.load_page().1->Search_0.sources[i];
            app.source_total_pages.contains_key(source) ==> app.page
                <= app.source_total_pages[source]
        }),
{
    lemma_askable(
        app.sources,
        app.source_total_pages,
        app.page,
        app.sources.len() as int,
        i,
    );
}

/// A search that is started waits for as many replies as it asked catalogs, and
/// carries a number of its own.
pub proof fn law_search_waits_for_all(app: AppView)
    requires
        app.generation < u64::MAX,
        app.sources.len() <= usize::MAX,
        app.load_page().1 is Search,
    ensures
        ({
            let (next, action) = app.load_page();
            let job = action->Search_0;
            &&& next.pending == job.sources.len() > 0
            &&& next.generation == job.generation == app.generation + 1
            &&& next.entries.len() == 0
            &&& next.selected == 0
            &&& job.page == app.page
            &&& job.query.len() > 0
        }),
{
    lemma_askable_len(
        app.sources,
        app.source_total_pages,
        app.page,
        app.sources.len() as int,
    );
}

proof fn lemma_askable_len(
    sources: Seq<SourceEntry>,
    totals: Map<Catalog, usize>,
    page: usize,
    n: int,
)
    requires
        0 <= n <= sources.len(),
    ensures
        askable(sources, totals, page, n).len() <= n,
    decreases n,
{
    if n > 0 {
        lemma_askable_len(sources, totals, page, n - 1);
    }
}

/// Turning pages never goes before the first page, nor past the last one where
/// that is known; and it goes no further than asked.
pub proof fn law_pages_stay_in_range(app: AppView, delta: int)
    requires
        app.wf(),
    ensures
        ({
            let next = app.change_page(delta).0;
            &&& next.wf()
            &&& next.page >= 1
            &&& next.page != app.page && app.total_pages is Some ==> next.page
                <= app.total_pages->0
            &&& next.page == app.page || next.page == app.page_after(delta)
            &&& next.total_pages == app.total_pages
        }),
{
}

/// A new search starts on the first page.
pub proof fn law_search_starts_on_the_first_page(app: AppView)
    requires
        app.wf(),
    ensures
        app.start_search().0.page == 1,
        app.start_search().0.total_pages is None,
        app.start_search().0.wf(),
{
}

proof fn lemma_largest(sources: Seq<SourceEntry>, totals: Map<Catalog, usize>, n: int, k: int)
    requires
        0 <= k < n <= sources.len(),
        sources[k].enabled,
        totals.contains_key(sources[k].source),
    ensures
        largest(sources, totals, n) matches Some(most) && most >= totals[sources[k].source],
    decreases n,
{
    if k < n - 1 {
        lemma_largest(sources, totals, n - 1, k);
    }
}

/// The total number of pages is only given where every enabled catalog reported
/// its own, and then no catalog has more.
pub proof fn law_total_is_exact(app: AppView, k: int)
    requires
        app.exact_total_pages() is Some,
        0 <= k < app.sources.len(),
        app.sources[k].enabled,
    ensures
        app.source_total_pages.contains_key(app.sources[k].source),
        app.source_total_pages[app.sources[k].source] <= app.exact_total_pages()->0,
{
    assert(app.source_total_pages.contains_key(app.sources[k].source));
    lemma_largest(app.sources, app.source_total_pages, app.sources.len() as int, k);
}

proof fn lemma_place_asked(
    sources: Seq<SourceEntry>,
    totals: Map<Catalog, usize>,
    page: usize,
    n: int,
    k: int,
)
    requires
        0 <= k < n <= sources.len(),
        has_page(sources[k], totals, page),
    ensures
        askable(sources, totals, page, k).len() < askable(sources, totals, page, n).len(),
        askable(sources, totals, page, n)[askable(sources, totals, page, k).len() as int]
            == sources[k].source,
    decreases n,
{
    if k < n - 1 {
        lemma_place_asked(sources, totals, page, n - 1, k);
    }
}

/// Every catalog that the user wants is asked, unless it is known to have fewer
/// pages; and they are asked in the order in which they are listed.
pub proof fn law_all_wanted_catalogs_are_asked(app: AppView, k: int, m: int)
    requires
        app.load_page().1 is Search,
        0 <= k < m < app.sources.len(),
        app.sources[k].enabled,
        app.source_total_pages.contains_key(app.sources[k].source) ==> app.page
            <= app.source_total_pages[app.sources[k].source],
        app.sources[m].enabled,
        app.source_total_pages.contains_key(app.sources[m].source) ==> app.page
            <= app.source_total_pages[app.sources[m].source],
    ensures
        exists|i: int, j: int|
            0 <= i < j < app.load_page().1->Search_0.sources.len()
                && #[trigger] app.load_page().1->Search_0.sources[i] == app.sources[k].source
                && #[trigger] app.load_page().1->Search_0.sources[j] == app.sources[m].source,
{
    let n = app.sources.len() as int;
    let totals = app.source_total_pages;
    lemma_place_asked(app.sources, totals, app.page, n, k);
    lemma_place_asked(app.sources, totals, app.page, n, m);
    lemma_place_asked(app.sources, totals, app.page, m, k);
    let i = askable(app.sources, totals, app.page, k).len() as int;
    let j = askable(app.sources, totals, app.page, m).len() as int;
    let asked = app.load_page().1->Search_0.sources;
    assert(asked == app.asked());
    assert(asked[i] == app.sources[k].source && asked[j] == app.sources[m].source);
}

/// A single catalog that the user wants is enough for a search.
pub proof fn law_one_catalog_is_enough(app: AppView, k: int)
    requires
        text::trimmed(app.input.text).len() > 0,
        0 <= k < app.sources.len(),
        app.sources[k].enabled,
        app.source_total_pages.contains_key(app.sources[k].source) ==> app.page
            <= app.source_total_pages[app.sources[k].source],
    ensures
        app.load_page().1 is Search,
        app.load_page().1->Search_0.sources.contains(app.sources[k].source),
{
    lemma_place_asked(
        app.sources,
        app.source_total_pages,
        app.page,
        app.sources.len() as int,
        k,
    );
}

/// What is searched for is what stands in the box, without the space around it;
/// the user is told so. The list is cleared, and nothing else changes.
pub proof fn law_search_is_for_the_query(app: AppView)
    ensures
        ({
            let (next, action) = app.load_page();
            let query = text::trimmed(app.input.text);
            let page = number::decimal(app.page as nat);
            &&& query.len() == 0 ==> action is Nothing && next == AppView {
                status: "type something first"@,
                ..app
            }
            &&& query.len() > 0 && action is Nothing ==> next == AppView {
                status: "no sources enabled — press s"@,
                ..app
            }
            &&& action is Nothing || action is Search
            &&& action matches ActionView::Search(job) ==> job.query == query && job.page
                == app.page && next == AppView {
                generation: next.generation,
                entries: Seq::empty(),
                selected: 0,
                pending: next.pending,
                status: "searching for \""@ + query + "\" — page "@ + page,
                ..app
            }
        }),
{
}

/// Where no catalog that the user wants can have the page, none is asked.
pub proof fn law_nobody_to_ask(app: AppView)
    requires
        forall|k: int| 0 <= k < app.sources.len() ==> !(#[trigger] app.sources[k]).enabled,
    ensures
        app.load_page().1 is Nothing,
{
    if app.asked().len() > 0 {
        lemma_askable(
            app.sources,
            app.source_total_pages,
            app.page,
            app.sources.len() as int,
            0,
        );
    }
}

/// The next page is the one after, the previous page the one before: neither is
/// loaded where it is known not to exist.
pub proof fn law_pages_turn_by_one(app: AppView)
    requires
        app.page >= 1,
        app.page < usize::MAX,
    ensures
        ({
            let (next, action) = app.change_page(1);
            let last = app.total_pages is Some && app.total_pages->0 <= app.page;
            &&& last ==> next == app && action is Nothing
            &&& !last ==> next.page == app.page + 1
            &&& action matches ActionView::Search(job) ==> job.page == app.page + 1
        }),
        ({
            let (next, action) = app.change_page(-1);
            let past = app.total_pages is Some && app.page - 1 > app.total_pages->0;
            &&& app.page == 1 || past ==> next == app && action is Nothing
            &&& app.page > 1 && !past ==> next.page == app.page - 1
            &&& action matches ActionView::Search(job) ==> job.page == app.page - 1
        }),
{
}

/// Turning a page asks for the same query again.
pub proof fn law_turning_keeps_the_query(app: AppView, delta: int)
    ensures
        app.change_page(delta).0.input == app.input,
        app.change_page(delta).1 matches ActionView::Search(job) ==> job.query == text::trimmed(
            app.input.text,
        ),
        app.start_search().1 matches ActionView::Search(job) ==> job.query == text::trimmed(
            app.input.text,
        ) && job.page == 1,
{
}

/// A new search knows nothing of the pages of the one before: every catalog that
/// the user wants is asked again.
pub proof fn law_new_search_asks_everybody(app: AppView, k: int)
    requires
        text::trimmed(app.input.text).len() > 0,
        0 <= k < app.sources.len(),
        app.sources[k].enabled,
    ensures
        app.start_search().1 is Search,
        app.start_search().1->Search_0.sources.contains(app.sources[k].source),
        app.start_search().0.source_total_pages == Map::<Catalog, usize>::empty(),
{
    law_one_catalog_is_enough(
        AppView { page: 1, total_pages: None, source_total_pages: Map::empty(), ..app },
        k,
    );
}

proof fn lemma_largest_is_reached(sources: Seq<SourceEntry>, totals: Map<Catalog, usize>, n: int)
    requires
        0 <= n <= sources.len(),
    ensures
        largest(sources, totals, n) matches Some(most) ==> exists|k: int|
            0 <= k < n && (#[trigger] sources[k]).enabled && totals.contains_key(sources[k].source)
                && totals[sources[k].source] == most,
    decreases n,
{
    if n > 0 {
        lemma_largest_is_reached(sources, totals, n - 1);
        let entry = sources[n - 1];
        if largest(sources, totals, n) != largest(sources, totals, n - 1) {
            assert(sources[n - 1].enabled);
        }
    }
}

/// The number of pages is that of one of the catalogs that the user wants. It is
/// given where each of those reported its own, and there is one.
pub proof fn law_total_is_reached(app: AppView, j: int)
    ensures
        app.exact_total_pages() matches Some(total) ==> exists|k: int|
            0 <= k < app.sources.len() && (#[trigger] app.sources[k]).enabled
                && app.source_total_pages.contains_key(app.sources[k].source)
                && app.source_total_pages[app.sources[k].source] == total,
        (forall|k: int|
            0 <= k < app.sources.len() && (#[trigger] app.sources[k]).enabled
                ==> app.source_total_pages.contains_key(app.sources[k].source)) && 0 <= j
            < app.sources.len() && app.sources[j].enabled ==> app.exact_total_pages() is Some,
        0 <= j < app.sources.len() && app.sources[j].enabled
            && !app.source_total_pages.contains_key(app.sources[j].source)
            ==> app.exact_total_pages() is None,
{
    let n = app.sources.len() as int;
    lemma_largest_is_reached(app.sources, app.source_total_pages, n);
    if 0 <= j < n && app.sources[j].enabled && app.source_total_pages.contains_key(
        app.sources[j].source,
    ) {
        lemma_largest(app.sources, app.source_total_pages, n, j);
    }
}

/// What turning a page does to the app that is running.
pub proof fn law_pages_are_turned(app: &mut App, delta: isize, r: Action)
    requires
        call_ensures(App::change_page, (app, delta), r),
    ensures
        (final(app)@, r@) == old(app)@.change_page(delta as int),
{
}

} // verus!
