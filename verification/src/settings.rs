//! User settings: the command that opens a source file, and whether the
//! line number is appended to it. The settings file lives at
//! `$XDG_CONFIG_HOME/seam-explorer/settings.json`, or under `$HOME/.config`
//! when that variable is unset or blank. Reading and writing the file, and
//! the process-wide store around `SettingsStore`, are done by the program.

use crate::model::opt_view;
use crate::paths::{joined_path, path_join};
use crate::text::{trim_text, trimmed};
use vstd::prelude::*;
use vstd::string::{StrSliceExecFns, StringExecFns};

verus! {

/// The directory, under the configuration base, that holds the settings.
pub const CONFIG_DIR_NAME: &'static str = "seam-explorer";

/// The settings file's name.
pub const CONFIG_FILE_NAME: &'static str = "settings.json";

/// The two settings.
#[derive(Debug, Clone, PartialEq, Eq)]
pub struct Settings {
    pub open_file_command: String,
    pub append_line_number: bool,
}

impl Settings {
    /// No command configured, no line number appended.
    pub open spec fn is_default(&self) -> bool {
        &&& self.open_file_command@.len() == 0
        &&& !self.append_line_number
    }
}

impl Default for Settings {
    fn default() -> (r: Self)
        ensures
            r.is_default(),
    {
        Settings { open_file_command: String::new(), append_line_number: false }
    }
}

/// The text of an optional `&str`.
pub open spec fn opt_str(o: Option<&str>) -> Option<Seq<char>> {
    match o {
        Some(s) => Some(s@),
        None => None,
    }
}

/// The configuration base: `$XDG_CONFIG_HOME` (trimmed) when present and
/// not blank, else `$HOME/.config`, else none.
pub open spec fn config_base(xdg: Option<Seq<char>>, home: Option<Seq<char>>) -> Option<Seq<char>> {
    if xdg matches Some(x) && trimmed(x).len() > 0 {
        Some(trimmed(xdg->0))
    } else {
        match home {
            Some(h) => Some(joined_path(h, ".config"@)),
            None => None,
        }
    }
}

/// The settings file's path under the configuration base.
pub open spec fn config_path(xdg: Option<Seq<char>>, home: Option<Seq<char>>) -> Option<Seq<char>> {
    match config_base(xdg, home) {
        Some(b) => Some(joined_path(joined_path(b, CONFIG_DIR_NAME@), CONFIG_FILE_NAME@)),
        None => None,
    }
}

/// The settings file's path for the given values of `$XDG_CONFIG_HOME` and
/// `$HOME`.
pub fn config_path_from(xdg_config_home: Option<&str>, home: Option<&str>) -> (r: Option<String>)
    ensures
        opt_view(r) == config_path(opt_str(xdg_config_home), opt_str(home)),
{
    let xdg = match xdg_config_home {
        Some(x) => {
            let t = trim_text(x);
            if t.unicode_len() > 0 {
                Some(t)
            } else {
                None
            }
        },
        None => None,
    };
    let base = match xdg {
        Some(b) => b,
        None => match home {
            Some(h) => path_join(h, ".config"),
            None => return None,
        },
    };
    let dir = path_join(base.as_str(), CONFIG_DIR_NAME);
    Some(path_join(dir.as_str(), CONFIG_FILE_NAME))
}

/// The settings in force, and the file they are written through to once a
/// path is bound. Until then, storing changes memory only.
pub struct SettingsStore {
    pub settings: Settings,
    pub path: Option<String>,
}

impl SettingsStore {
    /// Default settings, no path bound.
    pub fn new() -> (r: Self)
        ensures
            r.settings.is_default(),
            r.path is None,
    {
        SettingsStore { settings: Settings::default(), path: None }
    }

    /// Binds the store to `path`, holding `loaded`, the settings read from
    /// it (the defaults when the file is missing or unreadable).
    pub fn init(&mut self, path: String, loaded: Settings)
        ensures
            final(self).settings == loaded,
            final(self).path == Some(path),
    {
        self.settings = loaded;
        self.path = Some(path);
    }

    /// The bound path, if any.
    pub fn bound_path(&self) -> (r: Option<String>)
        ensures
            r == self.path,
    {
        self.path.clone()
    }

    /// The settings in force.
    pub fn current(&self) -> (r: Settings)
        ensures
            r == self.settings,
    {
        Settings {
            open_file_command: self.settings.open_file_command.clone(),
            append_line_number: self.settings.append_line_number,
        }
    }

    /// Replaces the settings in force; the result is the bound path, which
    /// the new settings are to be written to at once, or `None` when no path
    /// is bound and nothing is written.
    pub fn store(&mut self, s: Settings) -> (r: Option<String>)
        ensures
            final(self).settings == s,
            final(self).path == old(self).path,
            r == old(self).path,
    {
        self.settings = s;
        self.path.clone()
    }
}

} // verus!
