use vstd::prelude::*;

use crate::ansi::{Color, Style};
use crate::keymap::Keymap;
use crate::strmap::StrMap;
use crate::strutil::str_eq;

verus! {

/// Failures while assembling the configuration.
#[derive(Debug, Clone, Copy, PartialEq, Eq, Structural)]
pub enum ConfigError {
    NoDefaultSearchPath,
    NoValidSearchPath,
    LoadError,
    TomlError,
    FileWriteError,
    IoError,
}

impl ConfigError {
    /// A human-readable description of the error.
    pub fn message(&self) -> (r: &'static str)
        ensures
            r@.len() > 0,
    {
        let r: &'static str = match self {
            ConfigError::NoDefaultSearchPath => "No default search path was found",
            ConfigError::NoValidSearchPath => "No valid search path was found",
            ConfigError::TomlError => "Could not serialize config to TOML",
            ConfigError::FileWriteError => "Could not write to config file",
            ConfigError::LoadError => "Could not load configuration",
            ConfigError::IoError => "IO error",
        };
        proof {
            reveal_strlit("No default search path was found");
            reveal_strlit("No valid search path was found");
            reveal_strlit("Could not serialize config to TOML");
            reveal_strlit("Could not write to config file");
            reveal_strlit("Could not load configuration");
            reveal_strlit("IO error");
        }
        r
    }
}

/// Which version-control systems discovery may try when opening a candidate.
#[derive(Copy, Clone, Debug, PartialEq, Eq, Structural)]
pub enum VcsProviders {
    Git,
    Jujutsu,
}

/// The provider list used when none is configured.
pub fn default_vcs_providers() -> (r: Vec<VcsProviders>)
    ensures
        r@ =~= seq![VcsProviders::Git],
{
    let mut r: Vec<VcsProviders> = Vec::new();
    r.push(VcsProviders::Git);
    r
}

/// One traversal seed: a directory and how deep below it to search. Depth 0
/// means "test this path only, never descend".
#[derive(Debug, Clone, PartialEq, Eq)]
pub struct SearchDirectory {
    pub path: String,
    pub depth: usize,
}

impl SearchDirectory {
    pub fn new(path: String, depth: usize) -> (r: Self)
        ensures
            r.path == path,
            r.depth == depth,
    {
        SearchDirectory { path, depth }
    }
}

/// A preconfigured session for the `start` workflow.
#[derive(Debug, Clone, PartialEq, Eq)]
pub struct Session {
    pub name: Option<String>,
    pub path: Option<String>,
    pub windows: Option<Vec<Window>>,
}

/// A preconfigured window of a `start` session.
#[derive(Debug, Clone, PartialEq, Eq)]
pub struct Window {
    pub name: Option<String>,
    pub path: Option<String>,
    pub panes: Option<Vec<Pane>>,
    pub command: Option<String>,
}

/// A preconfigured pane; carries nothing yet.
#[derive(Debug, Clone, PartialEq, Eq, Structural)]
pub struct Pane {}

/// Per-session extras, such as a script run on creation.
#[derive(Debug, Clone, PartialEq, Eq)]
pub struct SessionConfig {
    pub create_script: Option<String>,
}

/// How the session switcher orders running sessions.
#[derive(Debug, Clone, Copy, PartialEq, Eq, Structural)]
pub enum SessionSortOrderConfig {
    Alphabetical,
    LastAttached,
}

/// Whether the clone workflow switches to the new session when it is done.
#[derive(Debug, Clone, Copy, PartialEq, Eq, Structural)]
pub enum CloneRepoSwitchConfig {
    Always,
    Never,
    Foreground,
}

// ---------------------------------------------------------------------------
// Picker colors
// ---------------------------------------------------------------------------

/// The five optional theme slots of the picker.
#[derive(Clone, Copy, Debug, PartialEq, Eq)]
pub struct PickerColorConfig {
    pub highlight_color: Option<Color>,
    pub highlight_text_color: Option<Color>,
    pub border_color: Option<Color>,
    pub info_color: Option<Color>,
    pub prompt_color: Option<Color>,
}

pub open spec fn spec_highlight_default() -> Color {
    Color::LightBlue
}

pub open spec fn spec_highlight_text_default() -> Color {
    Color::Black
}

pub open spec fn spec_border_default() -> Color {
    Color::DarkGray
}

pub open spec fn spec_info_default() -> Color {
    Color::LightYellow
}

pub open spec fn spec_prompt_default() -> Color {
    Color::LightGreen
}

impl PickerColorConfig {
    /// Every slot filled with its documented default.
    pub fn default_colors() -> (r: Self)
        ensures
            r.highlight_color == Some(spec_highlight_default()),
            r.highlight_text_color == Some(spec_highlight_text_default()),
            r.border_color == Some(spec_border_default()),
            r.info_color == Some(spec_info_default()),
            r.prompt_color == Some(spec_prompt_default()),
    {
        PickerColorConfig {
            highlight_color: Some(Color::LightBlue),
            highlight_text_color: Some(Color::Black),
            border_color: Some(Color::DarkGray),
            info_color: Some(Color::LightYellow),
            prompt_color: Some(Color::LightGreen),
        }
    }

    /// This theme with every empty slot replaced by its default.
    pub fn with_defaults(self) -> (r: Self)
        ensures
            r.highlight_color == Some(
                if self.highlight_color is Some {
                    self.highlight_color.unwrap()
                } else {
                    spec_highlight_default()
                },
            ),
            r.highlight_text_color == Some(
                if self.highlight_text_color is Some {
                    self.highlight_text_color.unwrap()
                } else {
                    spec_highlight_text_default()
                },
            ),
            r.border_color == Some(
                if self.border_color is Some {
                    self.border_color.unwrap()
                } else {
                    spec_border_default()
                },
            ),
            r.info_color == Some(
                if self.info_color is Some {
                    self.info_color.unwrap()
                } else {
                    spec_info_default()
                },
            ),
            r.prompt_color == Some(
                if self.prompt_color is Some {
                    self.prompt_color.unwrap()
                } else {
                    spec_prompt_default()
                },
            ),
    {
        PickerColorConfig {
            highlight_color: match self.highlight_color {
                Some(c) => Some(c),
                None => Some(Color::LightBlue),
            },
            highlight_text_color: match self.highlight_text_color {
                Some(c) => Some(c),
                None => Some(Color::Black),
            },
            border_color: match self.border_color {
                Some(c) => Some(c),
                None => Some(Color::DarkGray),
            },
            info_color: match self.info_color {
                Some(c) => Some(c),
                None => Some(Color::LightYellow),
            },
            prompt_color: match self.prompt_color {
                Some(c) => Some(c),
                None => Some(Color::LightGreen),
            },
        }
    }

    /// The style of the highlighted match row: configured colors over the
    /// defaults, always bold.
    pub fn highlight_style(&self) -> (r: Style)
        ensures
            r.bold,
            r.bg == Some(
                if self.highlight_color is Some {
                    self.highlight_color.unwrap()
                } else {
                    spec_highlight_default()
                },
            ),
            r.fg == Some(
                if self.highlight_text_color is Some {
                    self.highlight_text_color.unwrap()
                } else {
                    spec_highlight_text_default()
                },
            ),
    {
        let bg = match self.highlight_color {
            Some(c) => c,
            None => Color::LightBlue,
        };
        let fg = match self.highlight_text_color {
            Some(c) => c,
            None => Color::Black,
        };
        let mut style = Style::plain();
        style.bold = true;
        style.bg = Some(bg);
        style.fg = Some(fg);
        style
    }

    /// The border color, defaulted.
    pub fn border_color(&self) -> (r: Color)
        ensures
            r == if self.border_color is Some {
                self.border_color.unwrap()
            } else {
                spec_border_default()
            },
    {
        match self.border_color {
            Some(c) => c,
            None => Color::DarkGray,
        }
    }

    /// The match-count color, defaulted.
    pub fn info_color(&self) -> (r: Color)
        ensures
            r == if self.info_color is Some {
                self.info_color.unwrap()
            } else {
                spec_info_default()
            },
    {
        match self.info_color {
            Some(c) => c,
            None => Color::LightYellow,
        }
    }

    /// The prompt color, defaulted.
    pub fn prompt_color(&self) -> (r: Color)
        ensures
            r == if self.prompt_color is Some {
                self.prompt_color.unwrap()
            } else {
                spec_prompt_default()
            },
    {
        match self.prompt_color {
            Some(c) => c,
            None => Color::LightGreen,
        }
    }
}

// ---------------------------------------------------------------------------
// The configuration
// ---------------------------------------------------------------------------

/// The configuration the core works from. Loading it from disk and saving
/// it back are the surrounding application's business; the core only reads
/// and rewrites these plain values.
pub struct Config {
    pub default_session: Option<String>,
    pub display_full_path: Option<bool>,
    pub search_submodules: Option<bool>,
    pub recursive_submodules: Option<bool>,
    pub switch_filter_unknown: Option<bool>,
    pub session_sort_order: Option<SessionSortOrderConfig>,
    pub excluded_dirs: Option<Vec<String>>,
    pub search_paths: Option<Vec<String>>,
    pub search_dirs: Option<Vec<SearchDirectory>>,
    pub sessions: Option<Vec<Session>>,
    pub picker_colors: Option<PickerColorConfig>,
    pub shortcuts: Option<Keymap>,
    pub bookmarks: Option<Vec<String>>,
    pub session_configs: Option<StrMap<SessionConfig>>,
    pub marks: Option<StrMap<String>>,
    pub clone_repo_switch: Option<CloneRepoSwitchConfig>,
    pub vcs_providers: Option<Vec<VcsProviders>>,
    pub input_position: Option<crate::picker::InputPosition>,
}

impl Config {
    /// A configuration with nothing set.
    pub fn empty() -> (r: Config)
        ensures
            r.bookmarks is None,
            r.marks is None,
            r.search_dirs is None,
            r.search_paths is None,
            r.excluded_dirs is None,
            r.display_full_path is None,
    {
        Config {
            default_session: None,
            display_full_path: None,
            search_submodules: None,
            recursive_submodules: None,
            switch_filter_unknown: None,
            session_sort_order: None,
            excluded_dirs: None,
            search_paths: None,
            search_dirs: None,
            sessions: None,
            picker_colors: None,
            shortcuts: None,
            bookmarks: None,
            session_configs: None,
            marks: None,
            clone_repo_switch: None,
            vcs_providers: None,
            input_position: None,
        }
    }

    /// The configured search roots: the new-style entries first, then the
    /// deprecated plain paths with the default depth of 10. Fails when no
    /// root at all is configured.
    pub fn search_dirs(&self) -> (r: Result<Vec<SearchDirectory>, ConfigError>)
        ensures
            match r {
                Ok(dirs) => {
                    let new_part = if self.search_dirs is Some {
                        self.search_dirs.unwrap()@
                    } else {
                        Seq::<SearchDirectory>::empty()
                    };
                    let old_count = if self.search_paths is Some {
                        self.search_paths.unwrap()@.len()
                    } else {
                        0
                    };
                    &&& dirs@.len() == new_part.len() + old_count
                    &&& forall|i: int| 0 <= i < new_part.len() ==> #[trigger] dirs@[i] == new_part[i]
                    &&& forall|i: int|
                        0 <= i < old_count ==> (#[trigger] dirs@[new_part.len() + i]).path@
                            == self.search_paths.unwrap()@[i]@ && dirs@[new_part.len() + i].depth
                            == 10
                    &&& dirs@.len() > 0
                },
                Err(e) => {
                    &&& e == ConfigError::NoDefaultSearchPath
                    &&& (self.search_dirs is None || self.search_dirs.unwrap()@.len() == 0)
                    &&& (self.search_paths is None || self.search_paths.unwrap()@.len() == 0)
                },
            },
            r is Err <==> (self.search_dirs is None || self.search_dirs.unwrap()@.len() == 0) && (
            self.search_paths is None || self.search_paths.unwrap()@.len() == 0),
    {
        let no_new = match &self.search_dirs {
            Some(v) => v.len() == 0,
            None => true,
        };
        let no_old = match &self.search_paths {
            Some(v) => v.len() == 0,
            None => true,
        };
        if no_new && no_old {
            return Err(ConfigError::NoDefaultSearchPath);
        }
        let mut dirs: Vec<SearchDirectory> = Vec::new();
        match &self.search_dirs {
            Some(v) => {
                let mut i: usize = 0;
                while i < v.len()
                    invariant
                        i <= v@.len(),
                        dirs@.len() == i,
                        forall|j: int| 0 <= j < i ==> #[trigger] dirs@[j] == v@[j],
                    decreases v@.len() - i,
                {
                    dirs.push(SearchDirectory { path: v[i].path.clone(), depth: v[i].depth });
                    i = i + 1;
                }
            },
            None => {},
        }
        let ghost new_len = dirs@.len();
        let ghost base = dirs@;
        match &self.search_paths {
            Some(v) => {
                let mut i: usize = 0;
                while i < v.len()
                    invariant
                        i <= v@.len(),
                        dirs@.len() == new_len + i,
                        dirs@.take(new_len as int) =~= base,
                        forall|j: int|
                            0 <= j < i ==> (#[trigger] dirs@[new_len + j]).path@ == v@[j]@
                                && dirs@[new_len + j].depth == 10,
                    decreases v@.len() - i,
                {
                    dirs.push(SearchDirectory { path: v[i].clone(), depth: 10 });
                    i = i + 1;
                    proof {
                        assert(dirs@.take(new_len as int) =~= base);
                    }
                }
            },
            None => {},
        }
        proof {
            assert(forall|j: int| 0 <= j < new_len ==> #[trigger] dirs@[j] == base[j]);
        }
        Ok(dirs)
    }

    /// Adds a bookmark path, once: an already-present path is not added
    /// again.
    pub fn add_bookmark(&mut self, path: String)
        ensures
            final(self).bookmarks is Some,
            old(self).bookmarks is Some ==> {
                let pre = old(self).bookmarks.unwrap()@;
                final(self).bookmarks.unwrap()@ == if exists|j: int|
                    0 <= j < pre.len() && (#[trigger] pre[j])@ == path@ {
                    pre
                } else {
                    pre.push(path)
                }
            },
            old(self).bookmarks is None ==> final(self).bookmarks.unwrap()@ =~= seq![path],
    {
        match &mut self.bookmarks {
            Some(bookmarks) => {
                let n = bookmarks.len();
                let mut i: usize = 0;
                let mut present = false;
                while i < n && !present
                    invariant
                        n == bookmarks@.len(),
                        i <= n,
                        !present ==> forall|j: int|
                            0 <= j < i ==> (#[trigger] bookmarks@[j])@ != path@,
                        present ==> exists|j: int|
                            0 <= j < n && (#[trigger] bookmarks@[j])@ == path@,
                    decreases n - i + (if present {
                        0int
                    } else {
                        1int
                    }),
                {
                    if str_eq(bookmarks[i].as_str(), path.as_str()) {
                        present = true;
                    } else {
                        i = i + 1;
                    }
                }
                if !present {
                    bookmarks.push(path);
                }
            },
            None => {
                let mut v: Vec<String> = Vec::new();
                v.push(path);
                self.bookmarks = Some(v);
            },
        }
    }

    /// Deletes the first bookmark equal to `path`, if any.
    pub fn delete_bookmark(&mut self, path: String)
        ensures
            old(self).bookmarks is None ==> final(self).bookmarks is None,
            old(self).bookmarks is Some ==> final(self).bookmarks is Some && final(self).bookmarks.unwrap()@.map_values(|s: String| s@) == old(self).bookmarks.unwrap()@.map_values(|s: String| s@).remove_value(path@),
    {
        match &mut self.bookmarks {
            Some(bookmarks) => {
                let ghost pre = bookmarks@.map_values(|s: String| s@);
                let n = bookmarks.len();
                let mut i: usize = 0;
                let mut found = false;
                while i < n && !found
                    invariant
                        n == bookmarks@.len(),
                        i <= n,
                        pre == bookmarks@.map_values(|s: String| s@),
                        forall|j: int| 0 <= j < i ==> (#[trigger] bookmarks@[j])@ != path@,
                        found ==> i < n && bookmarks@[i as int]@ == path@,
                    decreases n - i + (if found {
                        0int
                    } else {
                        1int
                    }),
                {
                    if str_eq(bookmarks[i].as_str(), path.as_str()) {
                        found = true;
                    } else {
                        i = i + 1;
                    }
                }
                if found {
                    bookmarks.remove(i);
                    proof {
                        assert(bookmarks@.map_values(|s: String| s@) =~= pre.remove(i as int));
                        assert(pre[i as int] == path@);
                        pre.index_of_first_ensures(path@);
                        assert(pre.contains(path@));
                        let w = pre.index_of_first(path@).unwrap();
                        assert(w == i as int) by {
                            assert(pre[w] == path@);
                            if w < i as int {
                                assert(bookmarks@[w]@ != path@);
                            }
                            if w > i as int {
                                assert(pre[i as int] != path@);
                            }
                        }
                    }
                } else {
                    proof {
                        assert(!pre.contains(path@)) by {
                            if pre.contains(path@) {
                                let w = choose|w: int| 0 <= w < pre.len() && pre[w] == path@;
                                assert(bookmarks@[w]@ == path@);
                            }
                        }
                        pre.index_of_first_ensures(path@);
                    }
                }
            },
            None => {},
        }
    }

    /// Sets the mark at `index` to `path`.
    pub fn add_mark(&mut self, path: String, index: String)
        requires
            old(self).marks is Some ==> old(self).marks.unwrap().wf(),
        ensures
            final(self).marks is Some,
            final(self).marks.unwrap().wf(),
            old(self).marks is Some ==> final(self).marks.unwrap().view_map() == old(self).marks.unwrap().view_map().insert(index@, path),
            old(self).marks is None ==> final(self).marks.unwrap().view_map() =~= Map::<
                Seq<char>,
                String,
            >::empty().insert(index@, path),
    {
        match &mut self.marks {
            Some(marks) => {
                marks.insert(index, path);
            },
            None => {
                let mut m: StrMap<String> = StrMap::new();
                m.insert(index, path);
                self.marks = Some(m);
            },
        }
    }

    /// Removes the mark at `index`, if any.
    pub fn delete_mark(&mut self, index: &str)
        requires
            old(self).marks is Some ==> old(self).marks.unwrap().wf(),
        ensures
            old(self).marks is None ==> final(self).marks is None,
            old(self).marks is Some ==> final(self).marks is Some && final(self).marks.unwrap().wf() && final(self).marks.unwrap().view_map() == old(self).marks.unwrap().view_map().remove(index@),
    {
        match &mut self.marks {
            Some(marks) => {
                marks.remove_key(index);
            },
            None => {},
        }
    }

    /// Forgets every mark.
    pub fn clear_marks(&mut self)
        ensures
            final(self).marks is None,
    {
        self.marks = None;
    }
}

} // verus!
