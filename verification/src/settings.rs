//! The settings: so far one flag, whether unfree packages are allowed.
//!
//! The flag is written into the managed `default.nix` itself, so changing it touches nothing
//! outside the managed directory.

use vstd::prelude::*;

use crate::default_nix::{module_text, render_with};
use crate::error::{ErrorView, NixlayerError};
use crate::paths::{managed, Paths};

verus! {

#[derive(Debug, Clone, Copy, PartialEq, Eq, Structural)]
pub struct Settings {
    pub allow_unfree: bool,
}

impl Default for Settings {
    fn default() -> (r: Settings)
        ensures
            !r.allow_unfree,
    {
        Settings { allow_unfree: false }
    }
}

/// What the settings file holds.
#[derive(Debug)]
pub enum StoredSettings {
    /// There is no such file.
    Missing,
    /// The file could not be read; the text says why.
    Unreadable(String),
    /// The file does not hold settings.
    Malformed,
    Parsed(Settings),
}

impl Settings {
    /// The settings in force. Without a file, and with a file that holds no settings, they are
    /// the default ones.
    pub fn load(stored: &StoredSettings) -> (r: Result<Settings, NixlayerError>)
        ensures
            match *stored {
                StoredSettings::Missing => r matches Ok(s) && !s.allow_unfree,
                StoredSettings::Malformed => r matches Ok(s) && !s.allow_unfree,
                StoredSettings::Parsed(p) => r matches Ok(s) && s == p,
                StoredSettings::Unreadable(m) => r matches Err(e) && e@ == ErrorView::Io(m@),
            },
    {
        match stored {
            StoredSettings::Missing => Ok(Settings::default()),
            StoredSettings::Malformed => Ok(Settings::default()),
            StoredSettings::Parsed(s) => Ok(*s),
            StoredSettings::Unreadable(m) => Err(NixlayerError::Io(m.clone())),
        }
    }
}

/// Where the module goes that the settings ask for, and its text.
pub fn sync_default_nix(paths: &Paths, settings: &Settings) -> (r: (String, String))
    ensures
        r.0@ == managed(paths@, "default.nix"@),
        r.1@ == module_text(settings.allow_unfree),
{
    (paths.default_nix(), render_with(settings.allow_unfree))
}

} // verus!
