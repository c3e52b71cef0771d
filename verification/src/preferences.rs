//! What the user chose, and where it is kept.

use vstd::prelude::*;

use crate::text;

verus! {

/// Where books go unless the user names another folder.
pub const DEFAULT_DOWNLOAD_DIR: &'static str = "downloads";

/// What the user chose.
#[derive(Debug)]
pub struct Preferences {
    pub disabled_sources: Vec<String>,
    pub download_dir: String,
    pub google_drive_remote: String,
}

/// The mathematical counterpart of [`Preferences`].
#[verifier::ext_equal]
pub struct PreferencesView {
    pub disabled_sources: Seq<Seq<char>>,
    pub download_dir: Seq<char>,
    pub google_drive_remote: Seq<char>,
}

impl View for Preferences {
    type V = PreferencesView;

    open spec fn view(&self) -> PreferencesView {
        PreferencesView {
            disabled_sources: text::texts(self.disabled_sources@),
            download_dir: self.download_dir@,
            google_drive_remote: self.google_drive_remote@,
        }
    }
}

impl PreferencesView {
    /// The preferences of a user who has chosen nothing.
    pub open spec fn unset() -> PreferencesView {
        PreferencesView {
            disabled_sources: seq![],
            download_dir: DEFAULT_DOWNLOAD_DIR@,
            google_drive_remote: seq![],
        }
    }

    /// The user wants the catalog searched.
    pub open spec fn wants(self, source: Seq<char>) -> bool {
        !self.disabled_sources.contains(source)
    }
}

impl Default for Preferences {
    fn default() -> (r: Preferences)
        ensures
            r@ == PreferencesView::unset(),
    {
        let r = Preferences {
            disabled_sources: Vec::new(),
            download_dir: default_download_dir(),
            google_drive_remote: String::new(),
        };
        assert(r@.disabled_sources =~= seq![]);
        assert(r@.google_drive_remote =~= seq![]);
        r
    }
}

/// The folder for books of a user who has not chosen one.
pub fn default_download_dir() -> (r: String)
    ensures
        r@ == DEFAULT_DOWNLOAD_DIR@,
{
    DEFAULT_DOWNLOAD_DIR.to_owned()
}

impl Preferences {
    /// Whether the user wants the catalog searched.
    pub fn wants(&self, source: &str) -> (r: bool)
        ensures
            r == self@.wants(source@),
    {
        !text::holds(&self.disabled_sources, source)
    }
}

/// A folder that the environment names.
#[derive(Debug, Clone, Copy, PartialEq, Eq, Structural)]
pub enum Base {
    /// The folder for settings.
    Config,
    /// The user's own folder.
    Home,
}

/// Where the preferences are kept below the folder for settings.
pub const BELOW_CONFIG: &'static str = "tui-book-search/preferences.json";

/// Where the preferences are kept below the user's own folder.
pub const BELOW_HOME: &'static str = ".config/tui-book-search/preferences.json";

/// The file that holds the preferences: below the folder for settings if the
/// environment names one, else below the user's own folder.
pub fn preferences_path(has_config: bool, has_home: bool) -> (r: Option<(Base, &'static str)>)
    ensures
        match r {
            Some((Base::Config, name)) => has_config && name@ == BELOW_CONFIG@,
            Some((Base::Home, name)) => !has_config && has_home && name@ == BELOW_HOME@,
            None => !has_config && !has_home,
        },
{
    if has_config {
        Some((Base::Config, BELOW_CONFIG))
    } else if has_home {
        Some((Base::Home, BELOW_HOME))
    } else {
        None
    }
}

/// A folder as the user wrote it.
#[derive(Debug)]
pub enum Folder {
    /// The user's own folder.
    Home,
    /// A folder below the user's own.
    UnderHome(String),
    /// Any other folder.
    Given(String),
}

/// The mathematical counterpart of [`Folder`].
pub enum FolderView {
    Home,
    UnderHome(Seq<char>),
    Given(Seq<char>),
}

impl View for Folder {
    type V = FolderView;

    open spec fn view(&self) -> FolderView {
        match self {
            Folder::Home => FolderView::Home,
            Folder::UnderHome(rest) => FolderView::UnderHome(rest@),
            Folder::Given(path) => FolderView::Given(path@),
        }
    }
}

/// The folder that `value` names; a tilde in front stands for the user's own
/// folder.
pub open spec fn folder_of(value: Seq<char>) -> FolderView {
    if value == "~"@ {
        FolderView::Home
    } else {
        match text::after_prefix(value, "~/"@) {
            Some(rest) => FolderView::UnderHome(rest),
            None => FolderView::Given(value),
        }
    }
}

/// The folder that `value` names; a tilde in front stands for the user's own
/// folder.
pub fn expand_tilde(value: &str) -> (r: Folder)
    ensures
        r@ == folder_of(value@),
{
    if text::same(value, "~") {
        return Folder::Home;
    }
    match text::strip_prefix(value, "~/") {
        Some(rest) => Folder::UnderHome(rest),
        None => Folder::Given(value.to_owned()),
    }
}

// ---- laws -------------------------------------------------------------------------

/// Who has chosen nothing has every catalog searched, books put into
/// `downloads`, and nothing copied to Google Drive.
pub proof fn law_unset_preferences(r: Preferences, folder: String, name: Seq<char>)
    requires
        r@ == PreferencesView::unset(),
        call_ensures(default_download_dir, (), folder),
    ensures
        r@.wants(name),
        r.disabled_sources@.len() == 0,
        r.download_dir@ == "downloads"@,
        folder@ == "downloads"@,
        r.google_drive_remote@.len() == 0,
{
    assert(text::texts(r.disabled_sources@).len() == r.disabled_sources@.len());
}

/// A catalog is searched unless it is among those that are switched off.
pub proof fn law_wanted_catalogs(preferences: &Preferences, source: &str, r: bool)
    requires
        call_ensures(Preferences::wants, (preferences, source), r),
    ensures
        !r <==> exists|i: int|
            0 <= i < preferences.disabled_sources@.len() && (
            #[trigger] preferences.disabled_sources@[i])@ == source@,
{
    let all = text::texts(preferences.disabled_sources@);
    if all.contains(source@) {
        let i = choose|i: int| 0 <= i < all.len() && all[i] == source@;
        assert(preferences.disabled_sources@[i]@ == source@);
    }
    if exists|i: int|
        0 <= i < preferences.disabled_sources@.len() && (
        #[trigger] preferences.disabled_sources@[i])@ == source@ {
        let i = choose|i: int|
            0 <= i < preferences.disabled_sources@.len() && (
            #[trigger] preferences.disabled_sources@[i])@ == source@;
        assert(all[i] == source@);
    }
}

/// The folder for settings comes first, the user's own folder second.
pub proof fn law_preferences_path(
    has_config: bool,
    has_home: bool,
    r: Option<(Base, &'static str)>,
)
    requires
        call_ensures(preferences_path, (has_config, has_home), r),
    ensures
        has_config ==> (r matches Some((base, name)) && base == Base::Config && name@
            == "tui-book-search/preferences.json"@),
        !has_config && has_home ==> (r matches Some((base, name)) && base == Base::Home && name@
            == ".config/tui-book-search/preferences.json"@),
        !has_config && !has_home ==> r is None,
{
}

/// A tilde alone is the user's own folder, a tilde and a slash lead below it,
/// and any other text is a folder as it stands.
pub proof fn law_tilde(value: &str, r: Folder, rest: Seq<char>)
    requires
        call_ensures(expand_tilde, (value,), r),
    ensures
        value@ == seq!['~'] ==> r@ is Home,
        value@ == seq!['~', '/'] + rest ==> r@ == FolderView::UnderHome(rest),
        value@.len() == 0 || value@[0] != '~' ==> r@ == FolderView::Given(value@),
        value@.len() > 1 && value@[1] != '/' ==> r@ == FolderView::Given(value@),
{
    reveal_strlit("~");
    reveal_strlit("~/");
    assert("~"@ =~= seq!['~']);
    assert("~/"@ =~= seq!['~', '/']);
    if text::has_prefix(value@, "~/"@) {
        assert(value@.subrange(0, 2)[0] == value@[0] && value@.subrange(0, 2)[1] == value@[1]);
    }
    if value@ == seq!['~', '/'] + rest {
        assert(value@.subrange(0, 2) =~= "~/"@);
        assert(value@.subrange(2, value@.len() as int) =~= rest);
        assert(value@.len() >= 2);
    }
}

} // verus!
