//! What keys and the mouse do.

use vstd::prelude::*;

use crate::app::{Action, ActionView, After, App, AppView, Area, EntryView, Mode};
use crate::app::{SourceEntry, WELCOME};
use crate::field::{Edit, Step, TextField, TextView};
use crate::files::FoundFile;
use crate::number;
use crate::order;
use crate::preferences;
use crate::preferences::{Preferences, PreferencesView};
use crate::source::Source;
use crate::text;

verus! {

broadcast use crate::text::lemma_texts_push;

// ---- moving in a list -------------------------------------------------------------

/// The place `delta` further on, stopping at the ends of the list.
pub open spec fn clamped(current: usize, delta: int, len: nat) -> usize {
    if len == 0 || current + delta < 0 {
        0
    } else if current + delta >= len {
        (len - 1) as usize
    } else {
        (current + delta) as usize
    }
}

/// The place `delta` further on, stopping at the ends of the list.
pub fn clamped_index(current: usize, delta: isize, len: usize) -> (r: usize)
    ensures
        r == clamped(current, delta as int, len as nat),
{
    if len == 0 {
        return 0;
    }
    let wide: i128 = current as i128 + delta as i128;
    if wide < 0 {
        0
    } else if wide >= len as i128 {
        len - 1
    } else {
        wide as usize
    }
}

/// The place `delta` further on, going round at the ends of the list.
pub open spec fn wrapped(current: usize, delta: int, len: nat) -> usize {
    if len == 0 {
        current
    } else {
        ((current + delta) % (len as int)) as usize
    }
}

/// The place `delta` further on, going round at the ends of the list.
pub fn wrapped_index(current: usize, delta: isize, len: usize) -> (r: usize)
    ensures
        r == wrapped(current, delta as int, len as nat),
{
    if len == 0 {
        return current;
    }
    let wide: i128 = current as i128 + delta as i128;
    let size: i128 = len as i128;
    if wide >= 0 {
        (wide % size) as usize
    } else {
        let below: i128 = (-wide) % size;
        proof {
            lemma_negative_mod(wide as int, size as int);
        }
        if below == 0 {
            0
        } else {
            (size - below) as usize
        }
    }
}

proof fn lemma_negative_mod(x: int, m: int)
    requires
        x < 0 < m,
    ensures
        x % m == (if (-x) % m == 0 {
            0
        } else {
            m - (-x) % m
        }),
{
    let q = (-x) / m;
    let r = (-x) % m;
    vstd::arithmetic::div_mod::lemma_fundamental_div_mod(-x, m);
    assert(-x == m * q + r);
    if r == 0 {
        assert(x == m * (-q) + 0) by (nonlinear_arith)
            requires
                -x == m * q + r,
                r == 0,
        ;
        vstd::arithmetic::div_mod::lemma_fundamental_div_mod_converse(x, m, -q, 0);
    } else {
        assert(x == m * (-q - 1) + (m - r)) by (nonlinear_arith)
            requires
                -x == m * q + r,
        ;
        vstd::arithmetic::div_mod::lemma_fundamental_div_mod_converse(x, m, -q - 1, m - r);
    }
}

/// Moving always ends on a row of the list.
pub proof fn law_moves_end_on_a_row(current: usize, delta: int, len: nat)
    requires
        len > 0,
        len <= usize::MAX,
    ensures
        clamped(current, delta, len) < len,
        wrapped(current, delta, len) < len,
{
    let there = (current + delta) % (len as int);
    assert(0 <= there < len);
}

/// A step forward and a step back lead to where one started.
pub proof fn law_steps_undo_each_other(current: usize, delta: int, len: nat)
    requires
        current < len,
        len <= usize::MAX,
    ensures
        wrapped(wrapped(current, delta, len), -delta, len) == current,
{
    let m = len as int;
    let there = (current + delta) % m;
    law_moves_end_on_a_row(current, delta, len);
    vstd::arithmetic::div_mod::lemma_add_mod_noop(current + delta, -delta, m);
    vstd::arithmetic::div_mod::lemma_add_mod_noop(there, -delta, m);
    vstd::arithmetic::div_mod::lemma_mod_twice(current + delta, m);
    vstd::arithmetic::div_mod::lemma_small_mod(current as nat, len);
}

/// The mouse is on a row inside the frame of a list.
pub open spec fn is_inside(column: u16, row: u16, area: Area) -> bool {
    let right = if area.x + area.width > u16::MAX {
        u16::MAX as int
    } else {
        area.x + area.width
    };
    let bottom = if area.y + area.height > u16::MAX {
        u16::MAX as int
    } else {
        area.y + area.height
    };
    area.x < column < right - 1 && area.y < row < bottom - 1
}

/// The row of a list, scrolled by `offset` rows, that the mouse is on.
pub open spec fn row_at(column: u16, row: u16, area: Area, offset: usize, len: nat) -> Option<
    usize,
> {
    let index = offset + row - area.y - 1;
    if is_inside(column, row, area) && index < len {
        Some(index as usize)
    } else {
        None
    }
}

/// The row of a list that the mouse is on, if it is on one.
pub fn clicked_row(column: u16, row: u16, area: Area, offset: usize, len: usize) -> (r: Option<
    usize,
>)
    requires
        is_inside(column, row, area) ==> offset + row - area.y - 1 <= usize::MAX,
    ensures
        r == row_at(column, row, area, offset, len as nat),
{
    let right: u16 = area.x.saturating_add(area.width).saturating_sub(1);
    let bottom: u16 = area.y.saturating_add(area.height).saturating_sub(1);
    let inside = column > area.x && column < right && row > area.y && row < bottom;
    if !inside {
        return None;
    }
    let index: usize = offset + (row - area.y - 1) as usize;
    if index < len {
        Some(index)
    } else {
        None
    }
}

/// A click selects the row under the mouse and no other: the rows of a list
/// lie one below the other.
pub proof fn law_rows_follow_each_other(
    column: u16,
    row: u16,
    area: Area,
    offset: usize,
    len: nat,
)
    requires
        row < u16::MAX,
        len <= usize::MAX,
        row_at(column, row, area, offset, len) is Some,
        row_at(column, (row + 1) as u16, area, offset, len) is Some,
    ensures
        row_at(column, row, area, offset, len)->0 < len,
        row_at(column, (row + 1) as u16, area, offset, len)->0 == row_at(
            column,
            row,
            area,
            offset,
            len,
        )->0 + 1,
{
}

// ---- events -----------------------------------------------------------------------

/// A key.
#[derive(Debug, Clone, Copy, PartialEq, Eq, Structural)]
pub enum Key {
    Char(char),
    Enter,
    Esc,
    Tab,
    Up,
    Down,
    Left,
    Right,
    Home,
    End,
    Backspace,
    Delete,
    Function(u8),
    Other,
}

/// The keys that are held while another one is pressed.
#[derive(Debug, Clone, Copy, PartialEq, Eq, Structural)]
pub struct Held {
    pub shift: bool,
    pub control: bool,
    pub alt: bool,
    pub meta: bool,
    /// Any other such key.
    pub other: bool,
}

impl Held {
    pub open spec fn nothing_spec() -> Held {
        Held { shift: false, control: false, alt: false, meta: false, other: false }
    }

    /// No key.
    #[verifier::when_used_as_spec(nothing_spec)]
    pub fn nothing() -> (r: Held)
        ensures
            r == Held::nothing(),
    {
        Held { shift: false, control: false, alt: false, meta: false, other: false }
    }
}

/// A key event.
#[derive(Debug, Clone, Copy, PartialEq, Eq, Structural)]
pub struct KeyEvent {
    pub key: Key,
    pub held: Held,
    /// The key goes down; it is not released or repeated.
    pub press: bool,
}

/// A mouse event.
#[derive(Debug, Clone, Copy, PartialEq, Eq, Structural)]
pub enum MouseEvent {
    ScrollDown,
    ScrollUp,
    LeftDown { column: u16, row: u16 },
    Other,
}

// ---- editing ------------------------------------------------------------------------

/// What a character asks of a text while nothing but the control key is held.
pub open spec fn control_edit(c: char) -> Option<Edit> {
    match c {
        'h' => Some(Edit::Delete(Step::PrevChar)),
        'b' => Some(Edit::Go(Step::PrevChar)),
        'f' => Some(Edit::Go(Step::NextChar)),
        'u' => Some(Edit::DeleteLine),
        'w' => Some(Edit::Delete(Step::PrevWord)),
        'k' => Some(Edit::DeleteTillEnd),
        'y' => Some(Edit::Yank),
        'a' => Some(Edit::Start),
        'e' => Some(Edit::End),
        _ => None,
    }
}

/// What a character asks of a text while nothing but the meta key is held.
pub open spec fn meta_edit(c: char) -> Option<Edit> {
    match c {
        'b' => Some(Edit::Go(Step::PrevWord)),
        'f' => Some(Edit::Go(Step::NextWord)),
        'd' => Some(Edit::Delete(Step::PrevWord)),
        _ => None,
    }
}

/// What a key asks of a text: characters are typed, the others move the cursor
/// or delete.
pub open spec fn edit_of(key: Key, held: Held) -> Option<Edit> {
    let none = Held::nothing();
    let control = Held { control: true, ..none };
    let meta = Held { meta: true, ..none };
    let alt = Held { alt: true, ..none };
    match key {
        Key::Char(c) => if held == none || held == (Held { shift: true, ..none }) || held == (Held {
            control: true,
            ..alt
        }) {
            Some(Edit::Insert(c))
        } else if held == control {
            control_edit(c)
        } else if held == meta {
            meta_edit(c)
        } else {
            None
        },
        Key::Backspace => if held == none {
            Some(Edit::Delete(Step::PrevChar))
        } else if held == meta || held == alt {
            Some(Edit::Delete(Step::PrevWord))
        } else {
            None
        },
        Key::Delete => if held == none {
            Some(Edit::Delete(Step::NextChar))
        } else if held == control {
            Some(Edit::Delete(Step::NextWord))
        } else {
            None
        },
        Key::Left => if held == none {
            Some(Edit::Go(Step::PrevChar))
        } else if held == control {
            Some(Edit::Go(Step::PrevWord))
        } else {
            None
        },
        Key::Right => if held == none {
            Some(Edit::Go(Step::NextChar))
        } else if held == control {
            Some(Edit::Go(Step::NextWord))
        } else {
            None
        },
        Key::Home => if held == none {
            Some(Edit::Start)
        } else {
            None
        },
        Key::End => if held == none {
            Some(Edit::End)
        } else {
            None
        },
        _ => None,
    }
}

fn control_request(c: char) -> (r: Option<Edit>)
    ensures
        r == control_edit(c),
{
    match c {
        'h' => Some(Edit::Delete(Step::PrevChar)),
        'b' => Some(Edit::Go(Step::PrevChar)),
        'f' => Some(Edit::Go(Step::NextChar)),
        'u' => Some(Edit::DeleteLine),
        'w' => Some(Edit::Delete(Step::PrevWord)),
        'k' => Some(Edit::DeleteTillEnd),
        'y' => Some(Edit::Yank),
        'a' => Some(Edit::Start),
        'e' => Some(Edit::End),
        _ => None,
    }
}

fn meta_request(c: char) -> (r: Option<Edit>)
    ensures
        r == meta_edit(c),
{
    match c {
        'b' => Some(Edit::Go(Step::PrevWord)),
        'f' => Some(Edit::Go(Step::NextWord)),
        'd' => Some(Edit::Delete(Step::PrevWord)),
        _ => None,
    }
}

/// What a key asks of a text.
pub fn edit_request(key: Key, held: Held) -> (r: Option<Edit>)
    ensures
        r == edit_of(key, held),
{
    let none = Held::nothing();
    let control = Held { control: true, ..none };
    let meta = Held { meta: true, ..none };
    let alt = Held { alt: true, ..none };
    let shift = Held { shift: true, ..none };
    let both = Held { control: true, ..alt };
    match key {
        Key::Char(c) => if held == none || held == shift || held == both {
            Some(Edit::Insert(c))
        } else if held == control {
            control_request(c)
        } else if held == meta {
            meta_request(c)
        } else {
            None
        },
        Key::Backspace => if held == none {
            Some(Edit::Delete(Step::PrevChar))
        } else if held == meta || held == alt {
            Some(Edit::Delete(Step::PrevWord))
        } else {
            None
        },
        Key::Delete => if held == none {
            Some(Edit::Delete(Step::NextChar))
        } else if held == control {
            Some(Edit::Delete(Step::NextWord))
        } else {
            None
        },
        Key::Left => if held == none {
            Some(Edit::Go(Step::PrevChar))
        } else if held == control {
            Some(Edit::Go(Step::PrevWord))
        } else {
            None
        },
        Key::Right => if held == none {
            Some(Edit::Go(Step::NextChar))
        } else if held == control {
            Some(Edit::Go(Step::NextWord))
        } else {
            None
        },
        Key::Home => if held == none {
            Some(Edit::Start)
        } else {
            None
        },
        Key::End => if held == none {
            Some(Edit::End)
        } else {
            None
        },
        _ => None,
    }
}

/// The text after a key.
pub open spec fn keyed(field: TextView, event: KeyEvent) -> TextView {
    match edit_of(event.key, event.held) {
        Some(edit) => field.after(edit),
        None => field,
    }
}

fn edit_field(field: &mut TextField, event: KeyEvent)
    ensures
        final(field)@ == keyed(old(field)@, event),
{
    if let Some(edit) = edit_request(event.key, event.held) {
        field.edit(edit);
    }
}

// ---- settings ---------------------------------------------------------------------

/// The names of the catalogs that are switched off, among the first `n`.
pub open spec fn disabled_names(sources: Seq<SourceEntry>, n: int) -> Seq<Seq<char>>
    decreases n,
{
    if n <= 0 {
        seq![]
    } else if sources[n - 1].enabled {
        disabled_names(sources, n - 1)
    } else {
        disabled_names(sources, n - 1).push(sources[n - 1].source.tag())
    }
}

impl AppView {
    /// The preferences as they stand.
    pub open spec fn preferences(self) -> PreferencesView {
        PreferencesView {
            disabled_sources: order::sorted(
                disabled_names(self.sources, self.sources.len() as int),
            ),
            download_dir: text::trimmed(self.download_dir_input.text),
            google_drive_remote: text::trimmed(self.drive_remote_input.text),
        }
    }

    /// The catalogs are offered for picking.
    pub open spec fn open_sources(self) -> AppView {
        if self.mode == Mode::Sources {
            self
        } else {
            AppView { mode_before_sources: self.mode, mode: Mode::Sources, ..self }
        }
    }

    /// The settings are opened.
    pub open spec fn open_settings(self) -> AppView {
        AppView {
            mode: Mode::Settings,
            status: "edit a field, then press Enter to save"@,
            ..self
        }
    }

    /// The settings are to be saved: first the folder must exist.
    pub open spec fn commit_settings(self, after: After) -> (AppView, ActionView) {
        let directory = text::trimmed(self.download_dir_input.text);
        if directory.len() == 0 {
            (AppView { status: "download folder cannot be empty"@, ..self }, ActionView::Nothing)
        } else {
            (
                self,
                ActionView::PrepareFolder { folder: preferences::folder_of(directory), after },
            )
        }
    }

    /// The folder could not be created.
    pub open spec fn folder_failed(self, directory: Seq<char>, error: Seq<char>) -> AppView {
        AppView { status: "could not create "@ + directory + ": "@ + error, ..self }
    }

    /// The folder exists: the preferences are to be saved, if the remote is one.
    pub open spec fn folder_ready(self, directory: Seq<char>, after: After) -> (
        AppView,
        ActionView,
    ) {
        let drive = text::trimmed(self.drive_remote_input.text);
        if drive.len() > 0 && !text::occurs(drive, ":"@) {
            (
                AppView {
                    status: "Google Drive remote must look like gdrive:EBookArchive"@,
                    ..self
                },
                ActionView::Nothing,
            )
        } else {
            let next = AppView { download_dir_input: TextView::of(directory), ..self };
            (next, ActionView::SaveSettings { preferences: next.preferences(), after })
        }
    }

    /// The preferences are saved, or they could not be.
    pub open spec fn settings_saved(self, failure: Option<Seq<char>>, after: After) -> AppView {
        match failure {
            Some(error) => AppView { status: "could not save settings: "@ + error, ..self },
            None => match after {
                After::Stay => AppView { status: "settings saved"@, ..self },
                After::Search => AppView {
                    status: "settings saved"@,
                    mode: Mode::Search,
                    ..self
                },
                After::Tab => AppView { status: WELCOME@, mode: Mode::Search, ..self },
            },
        }
    }

    /// The choice of catalogs could not be saved.
    pub open spec fn sources_not_saved(self, error: Seq<char>) -> AppView {
        AppView { status: "could not save source settings: "@ + error, ..self }
    }

    /// The downloaded books are opened: first the folder must be listed.
    pub open spec fn open_library(self) -> (AppView, ActionView) {
        (
            AppView { mode: Mode::Library, ..self },
            ActionView::Scan(preferences::folder_of(text::trimmed(self.download_dir_input.text))),
        )
    }

    /// The folder is listed.
    pub open spec fn library_scanned(self, found: Seq<FoundFile>, directory: Seq<char>) -> AppView {
        let library = crate::files::library_of(found);
        AppView {
            library,
            library_selected: if library.len() == 0 {
                0
            } else if self.library_selected >= library.len() {
                (library.len() - 1) as usize
            } else {
                self.library_selected
            },
            status: if library.len() == 0 {
                "no ebooks in "@ + directory
            } else if library.len() == 1 {
                "1 downloaded book"@
            } else {
                number::decimal(library.len()) + " downloaded books"@
            },
            ..self
        }
    }

    /// The highlighted book on disk is opened.
    pub open spec fn open_library_selected(self) -> ActionView {
        if self.library_selected < self.library.len() {
            ActionView::Open(self.library[self.library_selected as int].file)
        } else {
            ActionView::Nothing
        }
    }

    /// The next tab is opened.
    pub open spec fn next_tab(self) -> (AppView, ActionView) {
        match self.mode {
            Mode::Library => (self.open_settings(), ActionView::Nothing),
            Mode::Settings => self.commit_settings(After::Tab),
            _ => self.open_library(),
        }
    }
}

// ---- lists ------------------------------------------------------------------------

impl AppView {
    /// The highlight moves, going round at the ends.
    pub open spec fn step(self, delta: int) -> AppView {
        AppView { selected: wrapped(self.selected, delta, self.entries.len()), ..self }
    }

    /// The highlight moves, stopping at the ends.
    pub open spec fn step_clamped(self, delta: int) -> AppView {
        AppView { selected: clamped(self.selected, delta, self.entries.len()), ..self }
    }

    /// The highlight among the books on disk moves, going round at the ends.
    pub open spec fn step_library(self, delta: int) -> AppView {
        AppView {
            library_selected: wrapped(self.library_selected, delta, self.library.len()),
            ..self
        }
    }

    /// The highlight among the books on disk moves, stopping at the ends.
    pub open spec fn step_library_clamped(self, delta: int) -> AppView {
        AppView {
            library_selected: clamped(self.library_selected, delta, self.library.len()),
            ..self
        }
    }

    /// The highlighted book is marked, or its mark is taken away.
    pub open spec fn toggle(self) -> AppView {
        if self.selected < self.entries.len() {
            let entry = self.entries[self.selected as int];
            AppView {
                entries: self.entries.update(
                    self.selected as int,
                    EntryView { marked: !entry.marked, ..entry },
                ),
                ..self
            }
        } else {
            self
        }
    }

    /// The highlighted catalog is switched on or off.
    pub open spec fn toggle_source(self) -> AppView {
        if self.source_cursor < self.sources.len() {
            let entry = self.sources[self.source_cursor as int];
            AppView {
                sources: self.sources.update(
                    self.source_cursor as int,
                    SourceEntry { enabled: !entry.enabled, ..entry },
                ),
                ..self
            }
        } else {
            self
        }
    }

    /// The highlight moves to the catalog before.
    pub open spec fn source_up(self) -> AppView {
        AppView {
            source_cursor: if self.source_cursor == 0 {
                0
            } else {
                (self.source_cursor - 1) as usize
            },
            ..self
        }
    }

    /// The highlight moves to the catalog after, if there is one.
    pub open spec fn source_down(self) -> AppView {
        AppView {
            source_cursor: if self.sources.len() == 0 {
                0
            } else if self.source_cursor + 1 >= self.sources.len() {
                (self.sources.len() - 1) as usize
            } else {
                (self.source_cursor + 1) as usize
            },
            ..self
        }
    }
}

// ---- keys -------------------------------------------------------------------------

impl AppView {
    /// A key while the search box is open.
    pub open spec fn search_key(self, event: KeyEvent) -> (AppView, ActionView) {
        match event.key {
            Key::Enter => self.start_search(),
            Key::Esc | Key::Down => if self.entries.len() > 0 {
                (AppView { mode: Mode::Browse, ..self }, ActionView::Nothing)
            } else {
                (self, ActionView::Nothing)
            },
            _ => (AppView { input: keyed(self.input, event), ..self }, ActionView::Nothing),
        }
    }

    /// A key while the results are open.
    pub open spec fn browse_key(self, event: KeyEvent, now: u128) -> (AppView, ActionView) {
        match event.key {
            Key::Char('/') | Key::Char('i') => (
                AppView { mode: Mode::Search, ..self },
                ActionView::Nothing,
            ),
            Key::Char('s') => (self.open_sources(), ActionView::Nothing),
            Key::Char('o') => self.open_selected(),
            Key::Char('q') | Key::Esc => (AppView { exit: true, ..self }, ActionView::Nothing),
            Key::Down | Key::Char('j') => (self.step(1), ActionView::Nothing),
            Key::Up | Key::Char('k') => (self.step(-1), ActionView::Nothing),
            Key::Right | Key::Char('n') => self.change_page(1),
            Key::Left | Key::Char('p') => self.change_page(-1),
            Key::Char(' ') => (self.toggle(), ActionView::Nothing),
            Key::Char('d') | Key::Enter => self.download_marked(now),
            _ => (self, ActionView::Nothing),
        }
    }

    /// A key while the catalogs are picked.
    pub open spec fn sources_key(self, event: KeyEvent) -> (AppView, ActionView) {
        match event.key {
            Key::Esc | Key::Char('s') | Key::Enter | Key::Tab => (
                AppView { mode: self.mode_before_sources, ..self },
                ActionView::Nothing,
            ),
            Key::Up | Key::Left | Key::Char('k') | Key::Char('h') => (
                self.source_up(),
                ActionView::Nothing,
            ),
            Key::Down | Key::Right | Key::Char('j') | Key::Char('l') => (
                self.source_down(),
                ActionView::Nothing,
            ),
            Key::Char(' ') => {
                let next = self.toggle_source();
                (next, ActionView::SaveSources(next.preferences()))
            },
            Key::Char('q') => (AppView { exit: true, ..self }, ActionView::Nothing),
            _ => (self, ActionView::Nothing),
        }
    }

    /// A key while the downloaded books are open.
    pub open spec fn library_key(self, event: KeyEvent) -> (AppView, ActionView) {
        match event.key {
            Key::Esc | Key::Char('/') => (
                AppView { mode: Mode::Search, ..self },
                ActionView::Nothing,
            ),
            Key::Char('q') => (AppView { exit: true, ..self }, ActionView::Nothing),
            Key::Down | Key::Char('j') => (self.step_library(1), ActionView::Nothing),
            Key::Up | Key::Char('k') => (self.step_library(-1), ActionView::Nothing),
            Key::Enter | Key::Char('o') => (self, self.open_library_selected()),
            Key::Char('r') => self.open_library(),
            _ => (self, ActionView::Nothing),
        }
    }

    /// A key while the settings are open.
    pub open spec fn settings_key(self, event: KeyEvent) -> (AppView, ActionView) {
        match event.key {
            Key::Esc => self.commit_settings(After::Search),
            Key::Enter => self.commit_settings(After::Stay),
            Key::Up | Key::Char('k') => (
                AppView { settings_cursor: 0, ..self },
                ActionView::Nothing,
            ),
            Key::Down | Key::Char('j') => (
                AppView { settings_cursor: 1, ..self },
                ActionView::Nothing,
            ),
            _ => if event.key == Key::Char('q') && event.held.control {
                (AppView { exit: true, ..self }, ActionView::Nothing)
            } else if self.settings_cursor == 0 {
                (
                    AppView {
                        download_dir_input: keyed(self.download_dir_input, event),
                        ..self
                    },
                    ActionView::Nothing,
                )
            } else {
                (
                    AppView {
                        drive_remote_input: keyed(self.drive_remote_input, event),
                        ..self
                    },
                    ActionView::Nothing,
                )
            },
        }
    }

    /// The key works everywhere.
    pub open spec fn is_global(self, event: KeyEvent) -> bool {
        ||| event.held.control && (event.key == Key::Char('c') || event.key == Key::Char('s'))
        ||| event.key == Key::Function(2)
        ||| event.key == Key::Function(3)
        ||| event.key == Key::Tab && self.mode != Mode::Sources
    }

    /// The results, if there are any, come after the search box; else the next
    /// tab does.
    pub open spec fn tab_key(self) -> (AppView, ActionView) {
        if self.mode == Mode::Search && self.entries.len() > 0 {
            (AppView { mode: Mode::Browse, ..self }, ActionView::Nothing)
        } else {
            self.next_tab()
        }
    }

    /// A key that works everywhere.
    pub open spec fn global_key(self, event: KeyEvent) -> (AppView, ActionView) {
        if event.held.control && event.key == Key::Char('c') {
            (AppView { exit: true, ..self }, ActionView::Nothing)
        } else if event.key == Key::Tab {
            self.tab_key()
        } else if event.key == Key::Function(3) {
            (self.open_settings(), ActionView::Nothing)
        } else {
            (self.open_sources(), ActionView::Nothing)
        }
    }

    /// A key event.
    pub open spec fn key(self, event: KeyEvent, now: u128) -> (AppView, ActionView) {
        if !event.press {
            (self, ActionView::Nothing)
        } else if self.is_global(event) {
            self.global_key(event)
        } else {
            match self.mode {
                Mode::Search => self.search_key(event),
                Mode::Browse => self.browse_key(event, now),
                Mode::Sources => self.sources_key(event),
                Mode::Library => self.library_key(event),
                Mode::Settings => self.settings_key(event),
            }
        }
    }

    /// The key loads another page of the results.
    pub open spec fn turns_page(self, event: KeyEvent) -> bool {
        match event.key {
            Key::Right | Key::Char('n') => self.change_page(1).1 is Search,
            Key::Left | Key::Char('p') => self.change_page(-1).1 is Search,
            _ => false,
        }
    }

    /// The key starts a search.
    pub open spec fn searches_on(self, event: KeyEvent) -> bool {
        &&& event.press
        &&& !self.is_global(event)
        &&& match self.mode {
            Mode::Search => event.key == Key::Enter && self.start_search().1 is Search,
            Mode::Browse => self.turns_page(event),
            _ => false,
        }
    }

    /// The key starts downloads.
    pub open spec fn downloads_on(self, event: KeyEvent) -> bool {
        &&& event.press
        &&& !self.is_global(event)
        &&& self.mode == Mode::Browse
        &&& event.key == Key::Char('d') || event.key == Key::Enter
    }

    /// A mouse event.
    pub open spec fn mouse(self, event: MouseEvent) -> AppView {
        match event {
            MouseEvent::ScrollDown => self.scrolled(3),
            MouseEvent::ScrollUp => self.scrolled(-3),
            MouseEvent::LeftDown { column, row } => self.clicked(column, row),
            MouseEvent::Other => self,
        }
    }

    /// The wheel was turned.
    pub open spec fn scrolled(self, delta: int) -> AppView {
        if self.mode == Mode::Library {
            self.step_library_clamped(delta)
        } else if (self.mode == Mode::Browse || self.mode == Mode::Search) && self.entries.len()
            > 0 {
            AppView { mode: Mode::Browse, ..self }.step_clamped(delta)
        } else {
            self
        }
    }

    /// The left button was pressed.
    pub open spec fn clicked(self, column: u16, row: u16) -> AppView {
        if self.mode == Mode::Library {
            match row_at(
                column,
                row,
                self.library_area,
                self.library_offset,
                self.library.len(),
            ) {
                Some(index) => AppView { library_selected: index, ..self },
                None => self,
            }
        } else {
            match row_at(
                column,
                row,
                self.results_area,
                self.results_offset,
                self.entries.len(),
            ) {
                Some(index) => AppView {
                    mode: Mode::Browse,
                    selected: index,
                    ..self
                }.toggle(),
                None => self,
            }
        }
    }

    /// The row under the mouse has a number.
    pub open spec fn rows_count(self, column: u16, row: u16) -> bool {
        if self.mode == Mode::Library {
            is_inside(column, row, self.library_area) ==> self.library_offset + row
                - self.library_area.y - 1 <= usize::MAX
        } else {
            is_inside(column, row, self.results_area) ==> self.results_offset + row
                - self.results_area.y - 1 <= usize::MAX
        }
    }

    /// Time has passed: what moves on the screen moves on.
    pub open spec fn ticked(self) -> AppView {
        AppView {
            spinner: crate::theme::next_place(self.spinner),
            frame: if self.frame == u64::MAX {
                0
            } else {
                (self.frame + 1) as u64
            },
            ..self
        }
    }
}

// ---- the app ----------------------------------------------------------------------

impl App {
    /// The preferences as they stand.
    pub fn preferences(&self) -> (r: Preferences)
        ensures
            r@ == self@.preferences(),
    {
        let mut names: Vec<String> = Vec::new();
        let mut i: usize = 0;
        assert(text::texts(names@) =~= disabled_names(self.sources@, 0));
        while i < self.sources.len()
            invariant
                i <= self.sources@.len(),
                text::texts(names@) == disabled_names(self.sources@, i as int),
            decreases self.sources@.len() - i,
        {
            let entry = self.sources[i];
            if !entry.enabled {
                names.push(entry.source.name().to_owned());
            }
            i += 1;
        }
        Preferences {
            disabled_sources: order::sort(&names),
            download_dir: text::trim(self.download_dir_input.text().as_str()),
            google_drive_remote: text::trim(self.drive_remote_input.text().as_str()),
        }
    }

    /// Offer the catalogs for picking.
    pub fn open_sources(&mut self)
        ensures
            final(self)@ == old(self)@.open_sources(),
    {
        if self.mode != Mode::Sources {
            self.mode_before_sources = self.mode;
            self.mode = Mode::Sources;
        }
    }

    /// Open the settings.
    pub fn open_settings(&mut self)
        ensures
            final(self)@ == old(self)@.open_settings(),
    {
        self.mode = Mode::Settings;
        self.status = "edit a field, then press Enter to save".to_owned();
    }

    /// Save the settings: first the folder must exist.
    pub fn commit_settings(&mut self, after: After) -> (r: Action)
        ensures
            (final(self)@, r@) == old(self)@.commit_settings(after),
    {
        let directory = text::trim(self.download_dir_input.text().as_str());
        if directory.as_str().is_empty() {
            self.status = "download folder cannot be empty".to_owned();
            return Action::Nothing;
        }
        Action::PrepareFolder { folder: preferences::expand_tilde(directory.as_str()), after }
    }

    /// Tell that the folder could not be created.
    pub fn folder_failed(&mut self, directory: &str, error: &str)
        ensures
            final(self)@ == old(self)@.folder_failed(directory@, error@),
    {
        let mut status = "could not create ".to_owned();
        status.append(directory);
        status.append(": ");
        status.append(error);
        self.status = status;
    }

    /// Tell that the folder exists.
    pub fn folder_ready(&mut self, directory: String, after: After) -> (r: Action)
        ensures
            (final(self)@, r@) == old(self)@.folder_ready(directory@, after),
    {
        let drive = text::trim(self.drive_remote_input.text().as_str());
        if !drive.as_str().is_empty() && !text::contains(drive.as_str(), ":") {
            self.status = "Google Drive remote must look like gdrive:EBookArchive".to_owned();
            return Action::Nothing;
        }
        self.download_dir_input = TextField::new(directory);
        Action::SaveSettings { preferences: self.preferences(), after }
    }

    /// Tell that the preferences are saved, or why they could not be.
    pub fn settings_saved(&mut self, failure: Option<String>, after: After)
        ensures
            final(self)@ == old(self)@.settings_saved(text::text_in(failure), after),
    {
        match failure {
            Some(error) => {
                let mut status = "could not save settings: ".to_owned();
                status.append(error.as_str());
                self.status = status;
            },
            None => match after {
                After::Stay => {
                    self.status = "settings saved".to_owned();
                },
                After::Search => {
                    self.status = "settings saved".to_owned();
                    self.mode = Mode::Search;
                },
                After::Tab => {
                    self.mode = Mode::Search;
                    self.status = WELCOME.to_owned();
                },
            },
        }
    }

    /// Tell why the choice of catalogs could not be saved.
    pub fn sources_not_saved(&mut self, error: &str)
        ensures
            final(self)@ == old(self)@.sources_not_saved(error@),
    {
        let mut status = "could not save source settings: ".to_owned();
        status.append(error);
        self.status = status;
    }

    /// Open the downloaded books: first the folder must be listed.
    pub fn open_library(&mut self) -> (r: Action)
        ensures
            (final(self)@, r@) == old(self)@.open_library(),
    {
        self.mode = Mode::Library;
        Action::Scan(
            preferences::expand_tilde(text::trim(self.download_dir_input.text().as_str()).as_str()),
        )
    }

    /// Tell what is in the folder.
    pub fn library_scanned(&mut self, found: Vec<FoundFile>, directory: &str)
        ensures
            final(self)@ == old(self)@.library_scanned(found@, directory@),
    {
        let ghost before = self@;
        let ghost all = found@;
        self.library = crate::files::scan_library(found);
        assert(self@.library == crate::files::library_of(all));
        let count: usize = self.library.len();
        assert(count == self@.library.len());
        if count == 0 {
            self.library_selected = 0;
            let mut status = "no ebooks in ".to_owned();
            status.append(directory);
            self.status = status;
        } else {
            if self.library_selected >= count {
                self.library_selected = count - 1;
            }
            if count == 1 {
                self.status = "1 downloaded book".to_owned();
            } else {
                let mut status = number::to_decimal(count as u64);
                status.append(" downloaded books");
                self.status = status;
            }
        }
        assert(self@ =~= before.library_scanned(all, directory@));
    }

    /// Open the highlighted book on disk.
    pub fn open_library_selected(&self) -> (r: Action)
        ensures
            r@ == self@.open_library_selected(),
    {
        if self.library_selected < self.library.len() {
            Action::Open(self.library[self.library_selected].file)
        } else {
            Action::Nothing
        }
    }

    /// Open the next tab.
    pub fn next_tab(&mut self) -> (r: Action)
        ensures
            (final(self)@, r@) == old(self)@.next_tab(),
    {
        match self.mode {
            Mode::Library => {
                self.open_settings();
                Action::Nothing
            },
            Mode::Settings => self.commit_settings(After::Tab),
            _ => self.open_library(),
        }
    }

    fn tab_key(&mut self) -> (r: Action)
        ensures
            (final(self)@, r@) == old(self)@.tab_key(),
    {
        if self.mode == Mode::Search && self.entries.len() > 0 {
            self.mode = Mode::Browse;
            Action::Nothing
        } else {
            self.next_tab()
        }
    }

    /// Move the highlight, going round at the ends.
    pub fn step(&mut self, delta: isize)
        ensures
            final(self)@ == old(self)@.step(delta as int),
    {
        self.selected = wrapped_index(self.selected, delta, self.entries.len());
    }

    /// Move the highlight, stopping at the ends.
    pub fn step_clamped(&mut self, delta: isize)
        ensures
            final(self)@ == old(self)@.step_clamped(delta as int),
    {
        self.selected = clamped_index(self.selected, delta, self.entries.len());
    }

    /// Move the highlight among the books on disk, going round at the ends.
    pub fn step_library(&mut self, delta: isize)
        ensures
            final(self)@ == old(self)@.step_library(delta as int),
    {
        self.library_selected = wrapped_index(self.library_selected, delta, self.library.len());
    }

    /// Move the highlight among the books on disk, stopping at the ends.
    pub fn step_library_clamped(&mut self, delta: isize)
        ensures
            final(self)@ == old(self)@.step_library_clamped(delta as int),
    {
        self.library_selected = clamped_index(self.library_selected, delta, self.library.len());
    }

    /// Mark the highlighted book, or take its mark away.
    pub fn toggle(&mut self)
        ensures
            final(self)@ == old(self)@.toggle(),
    {
        let ghost before = self@;
        let at: usize = self.selected;
        if at < self.entries.len() {
            let marked = self.entries[at].marked;
            self.entries[at].marked = !marked;
            assert(self@.entries =~= before.toggle().entries);
        }
    }

    fn toggle_source(&mut self)
        ensures
            final(self)@ == old(self)@.toggle_source(),
    {
        let at: usize = self.source_cursor;
        if at < self.sources.len() {
            let entry = self.sources[at];
            self.sources.set(at, SourceEntry { enabled: !entry.enabled, ..entry });
        }
    }

    fn source_up(&mut self)
        ensures
            final(self)@ == old(self)@.source_up(),
    {
        if self.source_cursor > 0 {
            self.source_cursor = self.source_cursor - 1;
        }
    }

    fn source_down(&mut self)
        ensures
            final(self)@ == old(self)@.source_down(),
    {
        let count: usize = self.sources.len();
        if count == 0 {
            self.source_cursor = 0;
        } else if self.source_cursor >= count - 1 {
            self.source_cursor = count - 1;
        } else {
            self.source_cursor = self.source_cursor + 1;
        }
    }

    fn search_key(&mut self, event: KeyEvent) -> (r: Action)
        requires
            event.key == Key::Enter && old(self)@.start_search().1 is Search ==> old(
                self,
            ).generation < u64::MAX,
        ensures
            (final(self)@, r@) == old(self)@.search_key(event),
    {
        match event.key {
            Key::Enter => self.start_search(),
            Key::Esc | Key::Down => {
                if self.entries.len() > 0 {
                    self.mode = Mode::Browse;
                }
                Action::Nothing
            },
            _ => {
                edit_field(&mut self.input, event);
                Action::Nothing
            },
        }
    }

    fn browse_key(&mut self, event: KeyEvent, now: u128) -> (r: Action)
        requires
            old(self)@.turns_page(event) ==> old(self).generation < u64::MAX,
            event.key == Key::Char('d') || event.key == Key::Enter ==> old(self)@.can_download(),
        ensures
            (final(self)@, r@) == old(self)@.browse_key(event, now),
    {
        match event.key {
            Key::Char('/') | Key::Char('i') => {
                self.mode = Mode::Search;
                Action::Nothing
            },
            Key::Char('s') => {
                self.open_sources();
                Action::Nothing
            },
            Key::Char('o') => self.open_selected(),
            Key::Char('q') | Key::Esc => {
                self.exit = true;
                Action::Nothing
            },
            Key::Down | Key::Char('j') => {
                self.step(1);
                Action::Nothing
            },
            Key::Up | Key::Char('k') => {
                self.step(-1);
                Action::Nothing
            },
            Key::Right | Key::Char('n') => self.change_page(1),
            Key::Left | Key::Char('p') => self.change_page(-1),
            Key::Char(' ') => {
                self.toggle();
                Action::Nothing
            },
            Key::Char('d') | Key::Enter => self.download_marked(now),
            _ => Action::Nothing,
        }
    }

    fn sources_key(&mut self, event: KeyEvent) -> (r: Action)
        ensures
            (final(self)@, r@) == old(self)@.sources_key(event),
    {
        match event.key {
            Key::Esc | Key::Char('s') | Key::Enter | Key::Tab => {
                self.mode = self.mode_before_sources;
                Action::Nothing
            },
            Key::Up | Key::Left | Key::Char('k') | Key::Char('h') => {
                self.source_up();
                Action::Nothing
            },
            Key::Down | Key::Right | Key::Char('j') | Key::Char('l') => {
                self.source_down();
                Action::Nothing
            },
            Key::Char(' ') => {
                self.toggle_source();
                Action::SaveSources(self.preferences())
            },
            Key::Char('q') => {
                self.exit = true;
                Action::Nothing
            },
            _ => Action::Nothing,
        }
    }

    fn library_key(&mut self, event: KeyEvent) -> (r: Action)
        ensures
            (final(self)@, r@) == old(self)@.library_key(event),
    {
        match event.key {
            Key::Esc | Key::Char('/') => {
                self.mode = Mode::Search;
                Action::Nothing
            },
            Key::Char('q') => {
                self.exit = true;
                Action::Nothing
            },
            Key::Down | Key::Char('j') => {
                self.step_library(1);
                Action::Nothing
            },
            Key::Up | Key::Char('k') => {
                self.step_library(-1);
                Action::Nothing
            },
            Key::Enter | Key::Char('o') => self.open_library_selected(),
            Key::Char('r') => self.open_library(),
            _ => Action::Nothing,
        }
    }

    fn settings_key(&mut self, event: KeyEvent) -> (r: Action)
        ensures
            (final(self)@, r@) == old(self)@.settings_key(event),
    {
        match event.key {
            Key::Esc => self.commit_settings(After::Search),
            Key::Enter => self.commit_settings(After::Stay),
            Key::Up | Key::Char('k') => {
                self.settings_cursor = 0;
                Action::Nothing
            },
            Key::Down | Key::Char('j') => {
                self.settings_cursor = 1;
                Action::Nothing
            },
            _ => {
                if event.key == Key::Char('q') && event.held.control {
                    self.exit = true;
                    Action::Nothing
                } else if self.settings_cursor == 0 {
                    edit_field(&mut self.download_dir_input, event);
                    Action::Nothing
                } else {
                    edit_field(&mut self.drive_remote_input, event);
                    Action::Nothing
                }
            },
        }
    }

    /// Handle a key at the time `now`, in nanoseconds.
    pub fn handle_key(&mut self, event: KeyEvent, now: u128) -> (r: Action)
        requires
            old(self)@.searches_on(event) ==> old(self).generation < u64::MAX,
            old(self)@.downloads_on(event) ==> old(self)@.can_download(),
        ensures
            (final(self)@, r@) == old(self)@.key(event, now),
    {
        if !event.press {
            return Action::Nothing;
        }
        if event.held.control && event.key == Key::Char('c') {
            self.exit = true;
            return Action::Nothing;
        }
        if (event.held.control && event.key == Key::Char('s')) || event.key == Key::Function(2) {
            self.open_sources();
            return Action::Nothing;
        }
        if event.key == Key::Function(3) {
            self.open_settings();
            return Action::Nothing;
        }
        if event.key == Key::Tab && self.mode != Mode::Sources {
            return self.tab_key();
        }
        match self.mode {
            Mode::Search => self.search_key(event),
            Mode::Browse => self.browse_key(event, now),
            Mode::Sources => self.sources_key(event),
            Mode::Library => self.library_key(event),
            Mode::Settings => self.settings_key(event),
        }
    }

    fn scroll(&mut self, delta: isize)
        ensures
            final(self)@ == old(self)@.scrolled(delta as int),
    {
        if self.mode == Mode::Library {
            self.step_library_clamped(delta);
        } else if (self.mode == Mode::Browse || self.mode == Mode::Search) && self.entries.len()
            > 0 {
            self.mode = Mode::Browse;
            self.step_clamped(delta);
        }
    }

    fn click(&mut self, column: u16, row: u16)
        requires
            old(self)@.rows_count(column, row),
        ensures
            final(self)@ == old(self)@.clicked(column, row),
    {
        if self.mode == Mode::Library {
            if let Some(index) = clicked_row(
                column,
                row,
                self.library_area,
                self.library_offset,
                self.library.len(),
            ) {
                self.library_selected = index;
            }
        } else if let Some(index) = clicked_row(
            column,
            row,
            self.results_area,
            self.results_offset,
            self.entries.len(),
        ) {
            self.mode = Mode::Browse;
            self.selected = index;
            self.toggle();
        }
    }

    /// Handle the mouse.
    pub fn handle_mouse(&mut self, event: MouseEvent)
        requires
            event matches MouseEvent::LeftDown { column, row } ==> old(self)@.rows_count(
                column,
                row,
            ),
        ensures
            final(self)@ == old(self)@.mouse(event),
    {
        match event {
            MouseEvent::ScrollDown => self.scroll(3),
            MouseEvent::ScrollUp => self.scroll(-3),
            MouseEvent::LeftDown { column, row } => self.click(column, row),
            MouseEvent::Other => {},
        }
    }

    /// Let what moves on the screen move on.
    pub fn tick(&mut self)
        ensures
            final(self)@ == old(self)@.ticked(),
    {
        self.spinner = crate::theme::advance(self.spinner);
        self.frame = if self.frame == u64::MAX {
            0
        } else {
            self.frame + 1
        };
    }
}

// ---- laws -------------------------------------------------------------------------

/// Whatever is pressed, the app stays sound.
pub proof fn law_keys_keep_the_app_sound(app: AppView, event: KeyEvent, now: u128)
    requires
        app.wf(),
    ensures
        app.key(event, now).0.wf(),
{
}

/// Whatever the mouse does, the app stays sound.
pub proof fn law_mouse_keeps_the_app_sound(app: AppView, event: MouseEvent)
    requires
        app.wf(),
    ensures
        app.mouse(event).wf(),
{
}

/// Only a search that is started gets a new number.
pub proof fn law_keys_count_searches(app: AppView, event: KeyEvent, now: u128)
    requires
        app.searches_on(event) ==> app.generation < u64::MAX,
    ensures
        app.key(event, now).1 is Search <==> app.searches_on(event),
        app.key(event, now).0.generation == app.generation + (if app.key(event, now).1 is Search {
            1int
        } else {
            0int
        }),
{
}

/// The user can always leave.
pub proof fn law_control_c_always_leaves(app: AppView, event: KeyEvent, now: u128)
    requires
        event.press,
        event.held.control,
        event.key == Key::Char('c'),
    ensures
        app.key(event, now) == (AppView { exit: true, ..app }, ActionView::Nothing),
{
}

/// Tab and Down move from the search box to the results, if there are any, and
/// `/` returns to the search box with nothing else changed.
pub proof fn law_results_and_back(app: AppView, there: KeyEvent, back: KeyEvent, now: u128)
    requires
        app.mode == Mode::Search,
        app.entries.len() > 0,
        there.press,
        there.key == Key::Tab || there.key == Key::Down,
        back.press,
        back.key == Key::Char('/'),
    ensures
        app.key(there, now) == (AppView { mode: Mode::Browse, ..app }, ActionView::Nothing),
        app.key(there, now).0.key(back, now) == (app, ActionView::Nothing),
{
}

/// A query is typed into the search box: a character goes where the cursor is,
/// and nothing else changes.
pub proof fn law_characters_are_typed(app: AppView, c: char, now: u128)
    requires
        app.mode == Mode::Search,
    ensures
        ({
            let event = KeyEvent { key: Key::Char(c), held: Held::nothing(), press: true };
            app.key(event, now) == (
                AppView { input: app.input.after(Edit::Insert(c)), ..app },
                ActionView::Nothing,
            )
        }),
{
}

/// A key edits the text that it is meant for and no other: the query in the
/// search box, and in the settings the field that the highlight is on.
pub proof fn law_keys_edit_one_text(app: AppView, event: KeyEvent, now: u128)
    ensures
        ({
            let next = app.key(event, now).0;
            &&& app.mode != Mode::Search ==> next.input == app.input
            &&& app.mode != Mode::Settings || app.settings_cursor != 0
                ==> next.download_dir_input == app.download_dir_input
            &&& app.mode != Mode::Settings || app.settings_cursor == 0
                ==> next.drive_remote_input == app.drive_remote_input
        }),
{
}

/// Keys that go up do nothing.
pub proof fn law_releases_do_nothing(app: AppView, event: KeyEvent, now: u128)
    requires
        !event.press,
    ensures
        app.key(event, now) == (app, ActionView::Nothing),
{
}

/// Marking a book twice leaves it as it was.
pub proof fn law_toggle_undoes_itself(app: AppView)
    ensures
        app.toggle().toggle() == app,
{
    if app.selected < app.entries.len() {
        assert(app.toggle().toggle().entries =~= app.entries);
    }
    assert(app.toggle().toggle() =~= app);
}

/// Leaving the catalogs leads back to where they were opened from.
pub proof fn law_sources_lead_back(app: AppView, event: KeyEvent, now: u128)
    requires
        app.mode != Mode::Sources,
        event.press,
        !event.held.control,
        event.key == Key::Esc,
    ensures
        app.open_sources().mode == Mode::Sources,
        app.open_sources().key(event, now).0.mode == app.mode,
        app.open_sources().key(event, now).0.sources == app.sources,
{
}

/// A click selects the row and marks it; the other rows stay as they are.
pub proof fn law_click_marks_one_row(app: AppView, column: u16, row: u16, index: usize)
    requires
        app.mode != Mode::Library,
        row_at(column, row, app.results_area, app.results_offset, app.entries.len()) == Some(
            index,
        ),
        app.entries.len() <= usize::MAX,
    ensures
        ({
            let next = app.mouse(MouseEvent::LeftDown { column, row });
            &&& index < app.entries.len()
            &&& next.mode == Mode::Browse
            &&& next.selected == index
            &&& next.entries.len() == app.entries.len()
            &&& next.entries[index as int].marked == !app.entries[index as int].marked
            &&& forall|i: int|
                0 <= i < app.entries.len() && i != index ==> #[trigger] next.entries[i]
                    == app.entries[i]
        }),
{
}

/// Turning the wheel never leaves the list.
pub proof fn law_wheel_stays_on_the_list(app: AppView, event: MouseEvent)
    requires
        event is ScrollDown || event is ScrollUp,
        app.selected < app.entries.len(),
        app.entries.len() <= usize::MAX,
    ensures
        app.mouse(event).selected < app.entries.len(),
        app.mouse(event).entries == app.entries,
{
    law_moves_end_on_a_row(app.selected, 3, app.entries.len());
    law_moves_end_on_a_row(app.selected, -3, app.entries.len());
}

proof fn lemma_disabled_names(sources: Seq<SourceEntry>, n: int, name: Seq<char>)
    requires
        0 <= n <= sources.len(),
    ensures
        disabled_names(sources, n).contains(name) <==> (exists|k: int|
            0 <= k < n && !(#[trigger] sources[k]).enabled && sources[k].source.tag() == name),
    decreases n,
{
    if n > 0 {
        lemma_disabled_names(sources, n - 1, name);
        let before = disabled_names(sources, n - 1);
        let all = disabled_names(sources, n);
        if all.contains(name) {
            let i = choose|i: int| 0 <= i < all.len() && all[i] == name;
            if i < before.len() {
                assert(before[i] == name);
                assert(before.contains(name));
            } else {
                assert(!sources[n - 1].enabled && sources[n - 1].source.tag() == name);
            }
        }
        if exists|k: int|
            0 <= k < n && !(#[trigger] sources[k]).enabled && sources[k].source.tag() == name {
            let k = choose|k: int|
                0 <= k < n && !(#[trigger] sources[k]).enabled && sources[k].source.tag() == name;
            if k == n - 1 {
                assert(all.last() == name);
                assert(all[all.len() - 1] == name);
            } else {
                assert(before.contains(name));
                let i = choose|i: int| 0 <= i < before.len() && before[i] == name;
                assert(all[i] == name);
            }
        }
    }
}

/// The catalogs are listed once each.
pub open spec fn listed_once(sources: Seq<SourceEntry>) -> bool {
    forall|i: int, j: int|
        0 <= i < j < sources.len() ==> (#[trigger] sources[i]).source != (
        #[trigger] sources[j]).source
}

/// What was saved is what is found again: an app that is started with the saved
/// preferences searches the same catalogs, and has the same folder and remote
/// but for the space around them.
pub proof fn law_preferences_are_restored(app: AppView, rclone_available: bool)
    requires
        listed_once(app.sources),
    ensures
        ({
            let catalogs = Seq::new(app.sources.len(), |i: int| app.sources[i].source);
            let next = AppView::fresh(catalogs, app.preferences(), rclone_available);
            &&& next.sources == app.sources
            &&& next.download_dir_input.text == text::trimmed(app.download_dir_input.text)
            &&& next.drive_remote_input.text == text::trimmed(app.drive_remote_input.text)
        }),
{
    let catalogs = Seq::new(app.sources.len(), |i: int| app.sources[i].source);
    let saved = app.preferences();
    let names = disabled_names(app.sources, app.sources.len() as int);
    let next = AppView::fresh(catalogs, saved, rclone_available);
    assert forall|i: int| 0 <= i < app.sources.len() implies next.sources[i]
        == app.sources[i] by {
        let name = app.sources[i].source.tag();
        lemma_disabled_names(app.sources, app.sources.len() as int, name);
        lemma_sorted_contains(names, name);
        if names.contains(name) {
            let k = choose|k: int|
                0 <= k < app.sources.len() && !(#[trigger] app.sources[k]).enabled
                    && app.sources[k].source.tag() == name;
            crate::source::law_names_are_distinct(app.sources[k].source, app.sources[i].source);
            assert(k == i);
        }
    }
    assert(next.sources =~= app.sources);
}

proof fn lemma_sorted_contains(list: Seq<Seq<char>>, name: Seq<char>)
    ensures
        order::sorted(list).contains(name) == list.contains(name),
{
    broadcast use vstd::seq_lib::group_to_multiset_ensures;

    order::law_sorting_keeps_texts(list);
    assert(order::sorted(list).contains(name) <==> order::sorted(list).to_multiset().count(name)
        > 0);
    assert(list.contains(name) <==> list.to_multiset().count(name) > 0);
}

/// In the results, the Down arrow moves the highlight to the next book and the
/// Up arrow to the one before, from the last book to the first and back; `j`
/// and `k` do what the arrows do. Nothing else changes.
pub proof fn law_arrows_move_the_highlight(app: AppView, down: KeyEvent, up: KeyEvent, now: u128)
    requires
        app.mode == Mode::Browse,
        app.selected < app.entries.len() <= usize::MAX,
        down.press,
        down.key == Key::Down || down.key == Key::Char('j'),
        up.press,
        up.key == Key::Up || up.key == Key::Char('k'),
    ensures
        ({
            let (next, action) = app.key(down, now);
            &&& action is Nothing
            &&& next == AppView { selected: next.selected, ..app }
            &&& app.selected + 1 < app.entries.len() ==> next.selected == app.selected + 1
            &&& app.selected + 1 == app.entries.len() ==> next.selected == 0
        }),
        ({
            let (next, action) = app.key(up, now);
            &&& action is Nothing
            &&& next == AppView { selected: next.selected, ..app }
            &&& app.selected > 0 ==> next.selected == app.selected - 1
            &&& app.selected == 0 ==> next.selected == app.entries.len() - 1
        }),
{
    lemma_step_round(app.selected as int, app.entries.len() as int);
}

proof fn lemma_step_round(at: int, len: int)
    requires
        0 <= at < len,
    ensures
        at + 1 < len ==> (at + 1) % len == at + 1,
        at + 1 == len ==> (at + 1) % len == 0,
        at > 0 ==> (at - 1) % len == at - 1,
        at == 0 ==> (at - 1) % len == len - 1,
{
    if at + 1 < len {
        vstd::arithmetic::div_mod::lemma_small_mod((at + 1) as nat, len as nat);
    } else {
        vstd::arithmetic::div_mod::lemma_mod_self_0(len);
    }
    if at > 0 {
        vstd::arithmetic::div_mod::lemma_small_mod((at - 1) as nat, len as nat);
    } else {
        vstd::arithmetic::div_mod::lemma_fundamental_div_mod_converse(-1, len, -1, len - 1);
    }
}

/// In the list of books on disk, the arrows and `j` and `k` move the highlight
/// in the same way.
pub proof fn law_arrows_move_in_the_library(
    app: AppView,
    down: KeyEvent,
    up: KeyEvent,
    now: u128,
)
    requires
        app.mode == Mode::Library,
        app.library_selected < app.library.len() <= usize::MAX,
        down.press,
        down.key == Key::Down || down.key == Key::Char('j'),
        up.press,
        up.key == Key::Up || up.key == Key::Char('k'),
    ensures
        ({
            let (next, action) = app.key(down, now);
            &&& action is Nothing
            &&& next == AppView { library_selected: next.library_selected, ..app }
            &&& app.library_selected + 1 < app.library.len() ==> next.library_selected
                == app.library_selected + 1
            &&& app.library_selected + 1 == app.library.len() ==> next.library_selected == 0
        }),
        ({
            let (next, action) = app.key(up, now);
            &&& action is Nothing
            &&& next == AppView { library_selected: next.library_selected, ..app }
            &&& app.library_selected > 0 ==> next.library_selected == app.library_selected - 1
            &&& app.library_selected == 0 ==> next.library_selected == app.library.len() - 1
        }),
{
    lemma_step_round(app.library_selected as int, app.library.len() as int);
}

/// Among the catalogs, Up, Left, `k` and `h` lead to the one before and Down,
/// Right, `j` and `l` to the one after; at the ends the highlight stays.
pub proof fn law_arrows_move_among_catalogs(
    app: AppView,
    up: KeyEvent,
    down: KeyEvent,
    now: u128,
)
    requires
        app.mode == Mode::Sources,
        app.source_cursor < app.sources.len() <= usize::MAX,
        up.press,
        up.key == Key::Up || up.key == Key::Left || up.key == Key::Char('k') || up.key == Key::Char(
            'h',
        ),
        down.press,
        down.key == Key::Down || down.key == Key::Right || down.key == Key::Char('j') || down.key
            == Key::Char('l'),
    ensures
        ({
            let (next, action) = app.key(up, now);
            &&& action is Nothing
            &&& next == AppView { source_cursor: next.source_cursor, ..app }
            &&& app.source_cursor > 0 ==> next.source_cursor == app.source_cursor - 1
            &&& app.source_cursor == 0 ==> next.source_cursor == 0
        }),
        ({
            let (next, action) = app.key(down, now);
            &&& action is Nothing
            &&& next == AppView { source_cursor: next.source_cursor, ..app }
            &&& app.source_cursor + 1 < app.sources.len() ==> next.source_cursor
                == app.source_cursor + 1
            &&& app.source_cursor + 1 == app.sources.len() ==> next.source_cursor
                == app.source_cursor
        }),
{
}

/// In the settings, Up and `k` lead to the folder, Down and `j` to the remote.
pub proof fn law_arrows_move_in_the_settings(app: AppView, event: KeyEvent, now: u128)
    requires
        app.mode == Mode::Settings,
        event.press,
    ensures
        event.key == Key::Up || event.key == Key::Char('k') ==> app.key(event, now) == (
            AppView { settings_cursor: 0, ..app },
            ActionView::Nothing,
        ),
        event.key == Key::Down || event.key == Key::Char('j') ==> app.key(event, now) == (
            AppView { settings_cursor: 1, ..app },
            ActionView::Nothing,
        ),
{
}

/// In the results, the Space key marks the highlighted book or takes its mark
/// away, and touches no other.
pub proof fn law_space_marks(app: AppView, event: KeyEvent, now: u128, i: int)
    requires
        app.mode == Mode::Browse,
        event.press,
        event.key == Key::Char(' '),
        app.selected < app.entries.len(),
        0 <= i < app.entries.len(),
    ensures
        ({
            let (next, action) = app.key(event, now);
            &&& action is Nothing
            &&& next == AppView { entries: next.entries, ..app }
            &&& next.entries.len() == app.entries.len()
            &&& i == app.selected ==> next.entries[i] == EntryView {
                marked: !app.entries[i].marked,
                ..app.entries[i]
            }
            &&& i != app.selected ==> next.entries[i] == app.entries[i]
        }),
{
}

/// Among the catalogs, the Space key switches the highlighted one on or off,
/// touches no other, and has the choice saved.
pub proof fn law_space_switches(app: AppView, event: KeyEvent, now: u128, i: int)
    requires
        app.mode == Mode::Sources,
        event.press,
        event.key == Key::Char(' '),
        app.source_cursor < app.sources.len(),
        0 <= i < app.sources.len(),
    ensures
        ({
            let (next, action) = app.key(event, now);
            &&& action == ActionView::SaveSources(next.preferences())
            &&& next == AppView { sources: next.sources, ..app }
            &&& next.sources.len() == app.sources.len()
            &&& next.sources[i].source == app.sources[i].source
            &&& i == app.source_cursor ==> next.sources[i].enabled == !app.sources[i].enabled
            &&& i != app.source_cursor ==> next.sources[i].enabled == app.sources[i].enabled
        }),
{
}

/// What the letters do in the results: `n` and Right turn to the next page, `p`
/// and Left to the one before, `d` and Enter download, `o` opens, `s` shows the
/// catalogs, `/` and `i` lead to the search box, `q` and Esc leave. Other keys
/// do nothing.
pub proof fn law_keys_in_the_results(app: AppView, event: KeyEvent, now: u128)
    requires
        app.mode == Mode::Browse,
        event.press,
        event.held.control ==> event.key != Key::Char('c') && event.key != Key::Char('s'),
    ensures
        event.key == Key::Right || event.key == Key::Char('n') ==> app.key(event, now)
            == app.change_page(1),
        event.key == Key::Left || event.key == Key::Char('p') ==> app.key(event, now)
            == app.change_page(-1),
        event.key == Key::Enter || event.key == Key::Char('d') ==> app.key(event, now)
            == app.download_marked(now),
        event.key == Key::Char('o') ==> app.key(event, now) == app.open_selected(),
        event.key == Key::Char('s') ==> app.key(event, now) == (
            AppView { mode: Mode::Sources, mode_before_sources: Mode::Browse, ..app },
            ActionView::Nothing,
        ),
        event.key == Key::Char('/') || event.key == Key::Char('i') ==> app.key(event, now) == (
            AppView { mode: Mode::Search, ..app },
            ActionView::Nothing,
        ),
        event.key == Key::Char('q') || event.key == Key::Esc ==> app.key(event, now) == (
            AppView { exit: true, ..app },
            ActionView::Nothing,
        ),
        event.key == Key::Home || event.key == Key::End || event.key == Key::Backspace || event.key
            == Key::Delete || event.key == Key::Other ==> app.key(event, now) == (
            app,
            ActionView::Nothing,
        ),
        app.key(event, now).0.exit && !app.exit ==> event.key == Key::Char('q') || event.key
            == Key::Esc,
{
}

/// In the search box, Enter searches from the first page on, Esc and Down lead to
/// the results if there are any, and every other key is for the text. The app
/// is not left.
pub proof fn law_keys_in_the_search_box(app: AppView, event: KeyEvent, now: u128)
    requires
        app.mode == Mode::Search,
        event.press,
        event.held.control ==> event.key != Key::Char('c') && event.key != Key::Char('s'),
        event.key != Key::Tab,
        event.key != Key::Function(2),
        event.key != Key::Function(3),
    ensures
        event.key == Key::Enter ==> app.key(event, now) == app.start_search(),
        event.key == Key::Esc || event.key == Key::Down ==> app.key(event, now) == (
            AppView {
                mode: if app.entries.len() > 0 {
                    Mode::Browse
                } else {
                    Mode::Search
                },
                ..app
            },
            ActionView::Nothing,
        ),
        event.key != Key::Enter && event.key != Key::Esc && event.key != Key::Down ==> app.key(
            event,
            now,
        ).1 is Nothing && app.key(event, now).0 == (AppView {
            input: app.key(event, now).0.input,
            ..app
        }),
        app.key(event, now).0.exit == app.exit,
{
}

/// In the list of books on disk, Enter and `o` open the highlighted one, `r`
/// lists the folder again, Esc and `/` lead to the search box, `q` leaves.
pub proof fn law_keys_in_the_library(app: AppView, event: KeyEvent, now: u128)
    requires
        app.mode == Mode::Library,
        event.press,
        event.held.control ==> event.key != Key::Char('c') && event.key != Key::Char('s'),
    ensures
        event.key == Key::Enter || event.key == Key::Char('o') ==> app.key(event, now).0 == app
            && app.key(event, now).1 == (if app.library_selected < app.library.len() {
            ActionView::Open(app.library[app.library_selected as int].file)
        } else {
            ActionView::Nothing
        }),
        event.key == Key::Char('r') ==> app.key(event, now) == (
            app,
            ActionView::Scan(preferences::folder_of(text::trimmed(app.download_dir_input.text))),
        ),
        event.key == Key::Esc || event.key == Key::Char('/') ==> app.key(event, now) == (
            AppView { mode: Mode::Search, ..app },
            ActionView::Nothing,
        ),
        event.key == Key::Char('q') ==> app.key(event, now) == (
            AppView { exit: true, ..app },
            ActionView::Nothing,
        ),
{
    assert(AppView { mode: Mode::Library, ..app } == app);
}

/// The catalogs are left with Esc, `s`, Enter or Tab, to where they were opened
/// from; `q` leaves the app.
pub proof fn law_keys_among_catalogs(app: AppView, event: KeyEvent, now: u128)
    requires
        app.mode == Mode::Sources,
        event.press,
        event.held.control ==> event.key != Key::Char('c') && event.key != Key::Char('s'),
    ensures
        event.key == Key::Esc || event.key == Key::Char('s') || event.key == Key::Enter || event.key
            == Key::Tab ==> app.key(event, now) == (
            AppView { mode: app.mode_before_sources, ..app },
            ActionView::Nothing,
        ),
        event.key == Key::Char('q') ==> app.key(event, now) == (
            AppView { exit: true, ..app },
            ActionView::Nothing,
        ),
{
}

/// In the settings, Enter saves and stays, Esc saves and leads to the search box
/// once that is done, and `q` leaves the app only while Control is held; else
/// it is typed.
pub proof fn law_keys_in_the_settings(app: AppView, event: KeyEvent, now: u128)
    requires
        app.mode == Mode::Settings,
        event.press,
        text::trimmed(app.download_dir_input.text).len() > 0,
    ensures
        ({
            let folder = preferences::folder_of(text::trimmed(app.download_dir_input.text));
            &&& event.key == Key::Enter ==> app.key(event, now) == (
                app,
                ActionView::PrepareFolder { folder, after: After::Stay },
            )
            &&& event.key == Key::Esc ==> app.key(event, now) == (
                app,
                ActionView::PrepareFolder { folder, after: After::Search },
            )
            &&& event.key == Key::Tab ==> app.key(event, now) == (
                app,
                ActionView::PrepareFolder { folder, after: After::Tab },
            )
            &&& event.key == Key::Char('q') && event.held.control ==> app.key(event, now) == (
                AppView { exit: true, ..app },
                ActionView::Nothing,
            )
            &&& event.key == Key::Char('q') && !event.held.control ==> !app.key(
                event,
                now,
            ).0.exit || app.exit
        }),
{
}

/// A character that is typed in the settings goes into the field with the
/// highlight: the folder above, the remote below.
pub proof fn law_settings_are_typed(app: AppView, c: char, now: u128)
    requires
        app.mode == Mode::Settings,
        c != 'j',
        c != 'k',
    ensures
        ({
            let event = KeyEvent { key: Key::Char(c), held: Held::nothing(), press: true };
            &&& app.settings_cursor == 0 ==> app.key(event, now) == (
                AppView {
                    download_dir_input: app.download_dir_input.after(Edit::Insert(c)),
                    ..app
                },
                ActionView::Nothing,
            )
            &&& app.settings_cursor == 1 ==> app.key(event, now) == (
                AppView {
                    drive_remote_input: app.drive_remote_input.after(Edit::Insert(c)),
                    ..app
                },
                ActionView::Nothing,
            )
        }),
{
}

/// Some keys work everywhere: Control and `s`, and the second function key, show
/// the catalogs; the third one shows the settings.
pub proof fn law_keys_that_work_everywhere(app: AppView, event: KeyEvent, now: u128)
    requires
        event.press,
    ensures
        event.key == Key::Function(3) ==> app.key(event, now) == (
            AppView {
                mode: Mode::Settings,
                status: "edit a field, then press Enter to save"@,
                ..app
            },
            ActionView::Nothing,
        ),
        (event.key == Key::Function(2) || event.held.control && event.key == Key::Char('s'))
            && app.mode != Mode::Sources ==> app.key(event, now) == (
            AppView { mode: Mode::Sources, mode_before_sources: app.mode, ..app },
            ActionView::Nothing,
        ),
        (event.key == Key::Function(2) || event.held.control && event.key == Key::Char('s'))
            && app.mode == Mode::Sources ==> app.key(event, now) == (app, ActionView::Nothing),
{
}

/// Tab goes round: from the search box to the results if there are any, from
/// there to the books on disk, from those to the settings, and from the
/// settings, once they are saved, to the search box.
pub proof fn law_tab_goes_round(app: AppView, event: KeyEvent, now: u128)
    requires
        event.press,
        event.key == Key::Tab,
    ensures
        app.mode == Mode::Search && app.entries.len() > 0 ==> app.key(event, now) == (
            AppView { mode: Mode::Browse, ..app },
            ActionView::Nothing,
        ),
        app.mode == Mode::Browse || app.mode == Mode::Search && app.entries.len() == 0 ==> app.key(
            event,
            now,
        ) == (
            AppView { mode: Mode::Library, ..app },
            ActionView::Scan(preferences::folder_of(text::trimmed(app.download_dir_input.text))),
        ),
        app.mode == Mode::Library ==> app.key(event, now).0.mode == Mode::Settings && app.key(
            event,
            now,
        ).1 is Nothing,
        app.mode == Mode::Settings && text::trimmed(app.download_dir_input.text).len() > 0
            ==> app.key(event, now) == (
            app,
            ActionView::PrepareFolder {
                folder: preferences::folder_of(text::trimmed(app.download_dir_input.text)),
                after: After::Tab,
            },
        ),
        app.settings_saved(None, After::Tab).mode == Mode::Search,
{
}

/// The wheel moves the highlight by three rows, down or up, and stops at the
/// ends: among the books on disk where those are shown, else in the results,
/// which then are worked on.
pub proof fn law_wheel_moves_by_three(app: AppView)
    requires
        app.entries.len() <= usize::MAX,
        app.library.len() <= usize::MAX,
    ensures
        ({
            let down = app.mouse(MouseEvent::ScrollDown);
            let up = app.mouse(MouseEvent::ScrollUp);
            let last = app.entries.len() - 1;
            let at = app.selected as int;
            (app.mode == Mode::Browse || app.mode == Mode::Search) && at <= last ==> {
                &&& down == AppView { mode: Mode::Browse, selected: down.selected, ..app }
                &&& up == AppView { mode: Mode::Browse, selected: up.selected, ..app }
                &&& at + 3 <= last ==> down.selected == at + 3
                &&& at + 3 > last ==> down.selected == last
                &&& at >= 3 ==> up.selected == at - 3
                &&& at < 3 ==> up.selected == 0
            }
        }),
        ({
            let down = app.mouse(MouseEvent::ScrollDown);
            let up = app.mouse(MouseEvent::ScrollUp);
            let last = app.library.len() - 1;
            let at = app.library_selected as int;
            app.mode == Mode::Library && at <= last ==> {
                &&& down == AppView { library_selected: down.library_selected, ..app }
                &&& up == AppView { library_selected: up.library_selected, ..app }
                &&& at + 3 <= last ==> down.library_selected == at + 3
                &&& at + 3 > last ==> down.library_selected == last
                &&& at >= 3 ==> up.library_selected == at - 3
                &&& at < 3 ==> up.library_selected == 0
            }
        }),
        app.mode == Mode::Settings || app.mode == Mode::Sources || app.mode != Mode::Library
            && app.entries.len() == 0 ==> app.mouse(MouseEvent::ScrollDown) == app && app.mouse(
            MouseEvent::ScrollUp,
        ) == app,
        app.mouse(MouseEvent::Other) == app,
{
    assert(AppView { mode: Mode::Browse, ..app }.entries == app.entries);
}

/// The row that is clicked: the rows of a list stand inside its frame, the first
/// of them one below its upper edge, and the list may be scrolled.
pub proof fn law_clicked_row(
    column: u16,
    row: u16,
    area: Area,
    offset: usize,
    len: usize,
    r: Option<usize>,
)
    requires
        call_ensures(clicked_row, (column, row, area, offset, len), r),
        area.x + area.width <= u16::MAX,
        area.y + area.height <= u16::MAX,
    ensures
        ({
            let inside = area.x + 1 <= column <= area.x + area.width - 2 && area.y + 1 <= row
                <= area.y + area.height - 2;
            let at = offset + (row - (area.y + 1));
            &&& inside && at < len ==> r is Some && r->0 == at
            &&& !inside || at >= len ==> r is None
        }),
{
}

/// A click among the books on disk highlights the row, and nothing else changes.
pub proof fn law_click_in_the_library(app: AppView, column: u16, row: u16)
    requires
        app.mode == Mode::Library,
    ensures
        ({
            let next = app.mouse(MouseEvent::LeftDown { column, row });
            let area = app.library_area;
            let at = row_at(column, row, area, app.library_offset, app.library.len());
            &&& next == AppView { library_selected: next.library_selected, ..app }
            &&& at is Some ==> next.library_selected == at->0
            &&& at is None ==> next.library_selected == app.library_selected
        }),
{
}

/// A click beside the rows does nothing.
pub proof fn law_click_beside_the_rows(app: AppView, column: u16, row: u16)
    requires
        app.mode != Mode::Library,
        row_at(column, row, app.results_area, app.results_offset, app.entries.len()) is None,
    ensures
        app.mouse(MouseEvent::LeftDown { column, row }) == app,
{
}

/// What keys ask of a text: characters are typed with or without Shift, arrows
/// move by a letter and with Control by a word, Home and End go to the ends,
/// Backspace deletes before the cursor and Delete behind it.
pub proof fn law_plain_keys_edit(key: Key, held: Held, r: Option<Edit>)
    requires
        call_ensures(edit_request, (key, held), r),
        !held.alt,
        !held.meta,
        !held.other,
    ensures
        !held.control ==> (key matches Key::Char(c) ==> r == Some(Edit::Insert(c))),
        !held.shift && !held.control && key == Key::Left ==> r == Some(Edit::Go(Step::PrevChar)),
        !held.shift && !held.control && key == Key::Right ==> r == Some(Edit::Go(Step::NextChar)),
        !held.shift && held.control && key == Key::Left ==> r == Some(Edit::Go(Step::PrevWord)),
        !held.shift && held.control && key == Key::Right ==> r == Some(Edit::Go(Step::NextWord)),
        !held.shift && !held.control && key == Key::Home ==> r == Some(Edit::Start),
        !held.shift && !held.control && key == Key::End ==> r == Some(Edit::End),
        !held.shift && !held.control && key == Key::Backspace ==> r == Some(
            Edit::Delete(Step::PrevChar),
        ),
        !held.shift && !held.control && key == Key::Delete ==> r == Some(
            Edit::Delete(Step::NextChar),
        ),
        !held.shift && held.control && key == Key::Delete ==> r == Some(
            Edit::Delete(Step::NextWord),
        ),
        key == Key::Enter || key == Key::Esc || key == Key::Tab || key == Key::Up || key
            == Key::Down || key == Key::Other ==> r is None,
{
}

/// What letters ask of a text while Control is held, as a shell understands
/// them, and while Meta is.
pub proof fn law_held_keys_edit(c: char, control: Option<Edit>, meta: Option<Edit>)
    requires
        call_ensures(
            edit_request,
            (
                Key::Char(c),
                Held { shift: false, control: true, alt: false, meta: false, other: false },
            ),
            control,
        ),
        call_ensures(
            edit_request,
            (
                Key::Char(c),
                Held { shift: false, control: false, alt: false, meta: true, other: false },
            ),
            meta,
        ),
    ensures
        c == 'a' <==> control == Some(Edit::Start),
        c == 'e' <==> control == Some(Edit::End),
        c == 'b' <==> control == Some(Edit::Go(Step::PrevChar)),
        c == 'f' <==> control == Some(Edit::Go(Step::NextChar)),
        c == 'h' <==> control == Some(Edit::Delete(Step::PrevChar)),
        c == 'w' <==> control == Some(Edit::Delete(Step::PrevWord)),
        c == 'u' <==> control == Some(Edit::DeleteLine),
        c == 'k' <==> control == Some(Edit::DeleteTillEnd),
        c == 'y' <==> control == Some(Edit::Yank),
        control matches Some(Edit::Insert(_)) ==> false,
        c == 'b' <==> meta == Some(Edit::Go(Step::PrevWord)),
        c == 'f' <==> meta == Some(Edit::Go(Step::NextWord)),
        c == 'd' <==> meta == Some(Edit::Delete(Step::PrevWord)),
        meta matches Some(Edit::Insert(_)) ==> false,
{
}

/// Backspace with Alt or with Meta deletes the word before the cursor; with
/// Control and Alt together a character is typed.
pub proof fn law_alt_keys_edit(c: char, held: Held, back: Option<Edit>, typed: Option<Edit>)
    requires
        !held.shift,
        !held.other,
        call_ensures(edit_request, (Key::Backspace, held), back),
        call_ensures(edit_request, (Key::Char(c), held), typed),
    ensures
        !held.control && held.alt != held.meta ==> back == Some(Edit::Delete(Step::PrevWord)),
        held.control && held.alt && !held.meta ==> typed == Some(Edit::Insert(c)),
        !held.control && held.alt && !held.meta ==> typed is None,
        held.control && back is Some ==> false,
{
}

/// What is saved: the names of the catalogs that are switched off and of no
/// others, in their alphabetical order, and the folder and the remote without
/// the space around them.
pub proof fn law_preferences_tell_the_choice(app: &App, r: Preferences, k: int)
    requires
        call_ensures(App::preferences, (app,), r),
        0 <= k < app.sources@.len(),
        listed_once(app.sources@),
    ensures
        text::texts(r.disabled_sources@).contains(app.sources@[k].source.tag())
            <==> !app.sources@[k].enabled,
        r.download_dir@ == text::trimmed(app.download_dir_input@.text),
        r.google_drive_remote@ == text::trimmed(app.drive_remote_input@.text),
{
    let name = app.sources@[k].source.tag();
    let names = disabled_names(app.sources@, app.sources@.len() as int);
    lemma_disabled_names(app.sources@, app.sources@.len() as int, name);
    lemma_sorted_contains(names, name);
    if names.contains(name) {
        let i = choose|i: int|
            0 <= i < app.sources@.len() && !(#[trigger] app.sources@[i]).enabled
                && app.sources@[i].source.tag() == name;
        crate::source::law_names_are_distinct(app.sources@[i].source, app.sources@[k].source);
        assert(i == k);
    }
}

/// The folder must be named; and a remote, where one is named, must have a colon
/// in it. Else the user is told, and nothing is saved.
pub proof fn law_settings_are_checked(app: AppView, directory: Seq<char>, after: After)
    ensures
        text::trimmed(app.download_dir_input.text).len() == 0 ==> app.commit_settings(after) == (
            AppView { status: "download folder cannot be empty"@, ..app },
            ActionView::Nothing,
        ),
        ({
            let remote = text::trimmed(app.drive_remote_input.text);
            let (next, action) = app.folder_ready(directory, after);
            &&& remote.len() > 0 && !remote.contains(':') ==> next == AppView {
                status: "Google Drive remote must look like gdrive:EBookArchive"@,
                ..app
            } && action is Nothing
            &&& remote.len() == 0 || remote.contains(':') ==> {
                &&& next.download_dir_input.text == directory
                &&& next.download_dir_input.cursor == directory.len()
                &&& next == AppView { download_dir_input: next.download_dir_input, ..app }
                &&& action == ActionView::SaveSettings { preferences: next.preferences(), after }
            }
        }),
{
    let remote = text::trimmed(app.drive_remote_input.text);
    reveal_strlit(":");
    assert(":"@ =~= seq![':']);
    if remote.contains(':') {
        let i = choose|i: int| 0 <= i < remote.len() && remote[i] == ':';
        assert(remote.subrange(i, i + 1) =~= ":"@);
        assert(text::occurs_at(remote, ":"@, i));
    }
    if text::occurs(remote, ":"@) {
        let i = choose|i: int| text::occurs_at(remote, ":"@, i);
        assert(remote.subrange(i, i + 1)[0] == remote[i]);
        assert(remote[i] == ':');
    }
}

/// The user is told what became of the settings, and nothing changes where they
/// could not be saved.
pub proof fn law_saving_is_told(app: AppView, error: Seq<char>, directory: Seq<char>, after: After)
    ensures
        app.folder_failed(directory, error) == (AppView {
            status: "could not create "@ + directory + ": "@ + error,
            ..app
        }),
        app.settings_saved(Some(error), after) == (AppView {
            status: "could not save settings: "@ + error,
            ..app
        }),
        app.sources_not_saved(error) == (AppView {
            status: "could not save source settings: "@ + error,
            ..app
        }),
        app.settings_saved(None, After::Stay) == (AppView { status: "settings saved"@, ..app }),
        app.settings_saved(None, After::Search) == (AppView {
            status: "settings saved"@,
            mode: Mode::Search,
            ..app
        }),
        app.settings_saved(None, After::Tab) == (AppView {
            status: "type a title or author, then press Enter"@,
            mode: Mode::Search,
            ..app
        }),
{
}

/// Once the folder is listed, the user is told how many books there are; the
/// highlight stays where it is as long as there is a book.
pub proof fn law_library_is_told(app: AppView, found: Seq<FoundFile>, directory: Seq<char>)
    requires
        crate::files::library_of(found).len() <= usize::MAX,
    ensures
        ({
            let next = app.library_scanned(found, directory);
            let count = crate::files::library_of(found).len();
            &&& next.library == crate::files::library_of(found)
            &&& next == AppView {
                library: next.library,
                library_selected: next.library_selected,
                status: next.status,
                ..app
            }
            &&& count == 0 ==> next.status == "no ebooks in "@ + directory && next.library_selected
                == 0
            &&& count == 1 ==> next.status == "1 downloaded book"@
            &&& count > 1 ==> next.status == number::decimal(count) + " downloaded books"@
            &&& app.library_selected < count ==> next.library_selected == app.library_selected
            &&& 0 < count <= app.library_selected ==> next.library_selected == count - 1
        }),
{
}

/// A list is stepped through: within it a step of `delta` rows leads that far,
/// and at the ends one way of moving stops and the other one goes round.
pub proof fn law_steps_in_a_list(
    current: usize,
    delta: isize,
    len: usize,
    stopped: usize,
    round: usize,
)
    requires
        call_ensures(clamped_index, (current, delta, len), stopped),
        call_ensures(wrapped_index, (current, delta, len), round),
    ensures
        0 <= current + delta < len ==> stopped == current + delta && round == current + delta,
        len > 0 && current + delta >= len ==> stopped == len - 1,
        current + delta < 0 ==> stopped == 0,
        len <= current + delta < 2 * len ==> round == current + delta - len,
        len > 0 && -len <= current + delta < 0 ==> round == current + delta + len,
        len == 0 ==> stopped == 0 && round == current,
{
    let m = len as int;
    let there = current + delta;
    if 0 <= there < m {
        vstd::arithmetic::div_mod::lemma_small_mod(there as nat, m as nat);
    } else if m <= there < 2 * m {
        vstd::arithmetic::div_mod::lemma_fundamental_div_mod_converse(there, m, 1, there - m);
    } else if -m <= there < 0 {
        vstd::arithmetic::div_mod::lemma_fundamental_div_mod_converse(there, m, -1, there + m);
    }
}

/// With every frame the pictures that move go one on, and start again at the
/// end.
pub proof fn law_frames_are_counted(app: AppView)
    ensures
        app.frame < u64::MAX ==> app.ticked().frame == app.frame + 1,
        app.frame == u64::MAX ==> app.ticked().frame == 0,
        app.ticked() == (AppView {
            frame: app.ticked().frame,
            spinner: app.ticked().spinner,
            ..app
        }),
{
}

/// The tabs follow each other: the books on disk come after the search, the
/// settings after those, and leaving the settings saves them.
pub proof fn law_tabs_follow_each_other(app: AppView)
    ensures
        app.mode == Mode::Search || app.mode == Mode::Browse || app.mode == Mode::Sources
            ==> app.next_tab().0.mode == Mode::Library && app.next_tab().1 is Scan,
        app.mode == Mode::Library ==> app.next_tab().0.mode == Mode::Settings && app.next_tab().1
            is Nothing,
        app.mode == Mode::Settings ==> app.next_tab() == app.commit_settings(After::Tab),
{
}

/// What a key does to the app that is running.
pub proof fn law_keys_are_handled(app: &mut App, event: KeyEvent, now: u128, r: Action)
    requires
        call_ensures(App::handle_key, (app, event, now), r),
    ensures
        (final(app)@, r@) == old(app)@.key(event, now),
{
}

/// What the mouse does to the app that is running.
pub proof fn law_mouse_is_handled(app: &mut App, event: MouseEvent, r: ())
    requires
        call_ensures(App::handle_mouse, (app, event), r),
    ensures
        final(app)@ == old(app)@.mouse(event),
{
}

/// What the steps of saving the settings do to the app that is running.
pub proof fn law_settings_are_handled(
    app: &mut App,
    directory: String,
    after: After,
    r: Action,
    other: &mut App,
    begun: Action,
)
    requires
        call_ensures(App::folder_ready, (app, directory, after), r),
        call_ensures(App::commit_settings, (other, after), begun),
    ensures
        (final(app)@, r@) == old(app)@.folder_ready(directory@, after),
        (final(other)@, begun@) == old(other)@.commit_settings(after),
{
}

/// Every other key does nothing: in the results, in the list of books on disk,
/// and among the catalogs.
pub proof fn law_other_keys_do_nothing(app: AppView, event: KeyEvent, now: u128)
    requires
        event.press,
        event.held.control ==> event.key != Key::Char('c') && event.key != Key::Char('s'),
        event.key != Key::Tab,
        event.key != Key::Function(2),
        event.key != Key::Function(3),
        event.key != Key::Enter,
        event.key != Key::Esc,
        event.key != Key::Up,
        event.key != Key::Down,
        event.key != Key::Left,
        event.key != Key::Right,
    ensures
        app.mode == Mode::Browse && (event.key matches Key::Char(c) ==> !seq![
            '/',
            'i',
            's',
            'o',
            'q',
            'j',
            'k',
            'n',
            'p',
            ' ',
            'd',
        ].contains(c)) ==> app.key(event, now) == (app, ActionView::Nothing),
        app.mode == Mode::Library && (event.key matches Key::Char(c) ==> !seq![
            '/',
            'q',
            'j',
            'k',
            'o',
            'r',
        ].contains(c)) ==> app.key(event, now) == (app, ActionView::Nothing),
        app.mode == Mode::Sources && (event.key matches Key::Char(c) ==> !seq![
            's',
            'k',
            'h',
            'j',
            'l',
            ' ',
            'q',
        ].contains(c)) ==> app.key(event, now) == (app, ActionView::Nothing),
{
    let browse = seq!['/', 'i', 's', 'o', 'q', 'j', 'k', 'n', 'p', ' ', 'd'];
    let library = seq!['/', 'q', 'j', 'k', 'o', 'r'];
    let sources = seq!['s', 'k', 'h', 'j', 'l', ' ', 'q'];
    assert(browse[0] == '/' && browse[1] == 'i' && browse[2] == 's' && browse[3] == 'o');
    assert(browse[4] == 'q' && browse[5] == 'j' && browse[6] == 'k' && browse[7] == 'n');
    assert(browse[8] == 'p' && browse[9] == ' ' && browse[10] == 'd');
    assert(library[0] == '/' && library[1] == 'q' && library[2] == 'j' && library[3] == 'k');
    assert(library[4] == 'o' && library[5] == 'r');
    assert(sources[0] == 's' && sources[1] == 'k' && sources[2] == 'h' && sources[3] == 'j');
    assert(sources[4] == 'l' && sources[5] == ' ' && sources[6] == 'q');
}

/// What a key asks of a text is done to the text that it is for: to the query in
/// the search box, and in the settings to the field with the highlight. A key
/// that asks nothing leaves the text alone.
pub proof fn law_edits_are_done(app: AppView, event: KeyEvent, now: u128, edit: Option<Edit>)
    requires
        call_ensures(edit_request, (event.key, event.held), edit),
        event.press,
        event.key != Key::Enter,
        event.key != Key::Esc,
        event.key != Key::Tab,
        event.key != Key::Up,
        event.key != Key::Down,
        event.key != Key::Function(2),
        event.key != Key::Function(3),
        event.held.control ==> event.key != Key::Char('c') && event.key != Key::Char('s')
            && event.key != Key::Char('q'),
    ensures
        ({
            let next = app.key(event, now).0;
            let typed = event.key != Key::Char('j') && event.key != Key::Char('k');
            let folder = app.mode == Mode::Settings && app.settings_cursor == 0 && typed;
            let remote = app.mode == Mode::Settings && app.settings_cursor == 1 && typed;
            &&& app.mode == Mode::Search && edit is Some ==> next.input == app.input.after(edit->0)
            &&& folder && edit is Some ==> next.download_dir_input == app.download_dir_input.after(
                edit->0,
            )
            &&& remote && edit is Some ==> next.drive_remote_input == app.drive_remote_input.after(
                edit->0,
            )
            &&& edit is None ==> next.input == app.input && next.download_dir_input
                == app.download_dir_input && next.drive_remote_input == app.drive_remote_input
        }),
{
}

/// Where nothing is highlighted there is nothing to mark, to open or to switch.
pub proof fn law_nothing_is_highlighted(app: AppView)
    ensures
        app.selected >= app.entries.len() ==> app.toggle() == app && app.open_selected() == (
            app,
            ActionView::Nothing,
        ),
        app.source_cursor >= app.sources.len() ==> app.toggle_source() == app,
        app.library_selected >= app.library.len() ==> app.open_library_selected() is Nothing,
{
}

/// Keys that are held together in any other way ask nothing of a text.
pub proof fn law_other_combinations_edit_nothing(key: Key, held: Held, r: Option<Edit>)
    requires
        call_ensures(edit_request, (key, held), r),
    ensures
        held.other ==> r is None,
        held.shift && (held.control || held.alt || held.meta) ==> r is None,
        held.shift && !(key is Char) ==> r is None,
        held.meta && (held.control || held.alt) ==> r is None,
        held.control && held.alt && !(key is Char) ==> r is None,
        (held.alt || held.meta) && (key == Key::Delete || key == Key::Left || key == Key::Right)
            ==> r is None,
        (held.control || held.alt || held.meta) && (key == Key::Home || key == Key::End)
            ==> r is None,
{
}

} // verus!
