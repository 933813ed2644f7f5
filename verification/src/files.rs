//! Where things live on disk: the configuration and data directories, the
//! monthly files and their lock files.
use vstd::prelude::*;

use std::path::{Path, PathBuf};

use crate::config::{AppConfig, Preferences};
use crate::error::{Error, Result};
use crate::text::push_str;

verus! {

#[verifier::external_type_specification]
#[verifier::external_body]
pub struct ExPath(Path);

/// The path that `base.join(part)` gives.
pub uninterp spec fn joined_path(base: PathBuf, part: Seq<char>) -> PathBuf;

/// `Path::join`: the path with `part` adjoined (the value is only named here).
#[verifier::external_body]
fn path_join(base: &PathBuf, part: &str) -> (r: PathBuf)
    ensures
        r == joined_path(*base, part@),
{
    base.join(part)
}

/// `Path::exists`: whether something exists at the path; it depends on the disk,
/// so nothing is stated of it.
#[verifier::external_body]
fn path_exists(p: &PathBuf) -> bool {
    p.exists()
}

/// The path that `PathBuf::as_path` lends of a path buffer.
pub uninterp spec fn path_of_buf(p: PathBuf) -> &'static Path;

/// `PathBuf::as_path`: the path the buffer holds, lent (the value is only named
/// here).
#[verifier::external_body]
fn as_path(p: &PathBuf) -> (r: &Path)
    ensures
        r == path_of_buf(*p),
{
    p.as_path()
}

/// `PathBuf::clone`: an equal path.
#[verifier::external_body]
fn path_clone(p: &PathBuf) -> (r: PathBuf)
    ensures
        r == *p,
{
    p.clone()
}

/// `PathBuf::from` a text.
pub uninterp spec fn path_of_text(s: Seq<char>) -> PathBuf;

#[verifier::external_body]
fn path_from(s: &str) -> (r: PathBuf)
    ensures
        r == path_of_text(s@),
{
    PathBuf::from(s)
}

/// Manages reading and writing monthly markdown files in the data directory.
pub struct FileManager {
    data_dir: PathBuf,
}

impl FileManager {
    pub closed spec fn dir(self) -> PathBuf {
        self.data_dir
    }

    pub fn new(data_dir: PathBuf) -> (r: FileManager)
        ensures
            r.dir() == data_dir,
    {
        FileManager { data_dir }
    }

    /// Path to a monthly file: <data_dir>/YYYY-MM.md
    pub fn month_file_path(&self, month_key: &str) -> (r: PathBuf)
        ensures
            r == joined_path(self.dir(), month_key@ + ".md"@),
    {
        let mut name = String::from_str(month_key);
        push_str(&mut name, ".md");
        path_join(&self.data_dir, name.as_str())
    }

    /// Path to the advisory lock file for a month: <data_dir>/YYYY-MM.md.lock
    pub fn lock_file_path(&self, month_key: &str) -> (r: PathBuf)
        ensures
            r == joined_path(self.dir(), month_key@ + ".md.lock"@),
    {
        let mut name = String::from_str(month_key);
        push_str(&mut name, ".md.lock");
        path_join(&self.data_dir, name.as_str())
    }

    /// Check if a monthly file exists on disk.
    pub fn month_exists(&self, month_key: &str) -> bool {
        let path = self.month_file_path(month_key);
        path_exists(&path)
    }

    /// The data directory, owned.
    pub(crate) fn dir_owned(&self) -> (r: PathBuf)
        ensures
            r == self.dir(),
    {
        path_clone(&self.data_dir)
    }

    /// The data directory, lent as a path.
    pub fn data_dir(&self) -> (r: &Path)
        ensures
            r == path_of_buf(self.dir()),
    {
        as_path(&self.data_dir)
    }
}

/// The configuration directory: `$XDG_CONFIG_HOME/wdttg` when that variable is
/// set and not empty, else `<home>/.config/wdttg`; an error without a home.
pub open spec fn config_dir_of(xdg_config_home: Option<Seq<char>>, home: Option<PathBuf>) -> Option<PathBuf> {
    match xdg_config_home {
        Some(x) if x.len() > 0 => Some(joined_path(path_of_text(x), "wdttg"@)),
        _ => match home {
            Some(h) => Some(joined_path(joined_path(h, ".config"@), "wdttg"@)),
            None => None,
        },
    }
}

/// The default data directory: `$XDG_DATA_HOME/wdttg/data` when set and not
/// empty, else `<home>/.local/share/wdttg/data`; an error without a home.
pub open spec fn default_data_dir_of(xdg_data_home: Option<Seq<char>>, home: Option<PathBuf>) -> Option<PathBuf> {
    match xdg_data_home {
        Some(x) if x.len() > 0 => Some(joined_path(joined_path(path_of_text(x), "wdttg"@), "data"@)),
        _ => match home {
            Some(h) => Some(
                joined_path(joined_path(joined_path(joined_path(h, ".local"@), "share"@), "wdttg"@), "data"@),
            ),
            None => None,
        },
    }
}

pub open spec fn opt_text(o: Option<String>) -> Option<Seq<char>> {
    crate::model::opt_view(o)
}

fn no_home() -> (r: Error)
    ensures
        r matches Error::Config(m) && m@ == "cannot determine home directory"@,
{
    Error::Config(String::from_str("cannot determine home directory"))
}

/// The configuration directory, from the value of `XDG_CONFIG_HOME` (if set) and
/// the home directory (if known).
pub fn config_dir(xdg_config_home: Option<String>, home: Option<PathBuf>) -> (r: Result<PathBuf>)
    ensures
        match r {
            Ok(p) => config_dir_of(opt_text(xdg_config_home), home) == Some(p),
            Err(Error::Config(m)) => config_dir_of(opt_text(xdg_config_home), home) is None
                && m@ == "cannot determine home directory"@,
            Err(_) => false,
        },
{
    if let Some(x) = &xdg_config_home {
        if !x.as_str().is_empty() {
            let base = path_from(x.as_str());
            return Ok(path_join(&base, "wdttg"));
        }
    }
    match home {
        Some(h) => {
            let c = path_join(&h, ".config");
            Ok(path_join(&c, "wdttg"))
        },
        None => Err(no_home()),
    }
}

/// Returns the config file path: <config_dir>/config.toml
pub fn config_path(xdg_config_home: Option<String>, home: Option<PathBuf>) -> (r: Result<PathBuf>)
    ensures
        match r {
            Ok(p) => config_dir_of(opt_text(xdg_config_home), home) matches Some(d) && p
                == joined_path(d, "config.toml"@),
            Err(Error::Config(m)) => config_dir_of(opt_text(xdg_config_home), home) is None
                && m@ == "cannot determine home directory"@,
            Err(_) => false,
        },
{
    let dir = config_dir(xdg_config_home, home)?;
    Ok(path_join(&dir, "config.toml"))
}

/// The default data directory, from the value of `XDG_DATA_HOME` (if set) and the
/// home directory (if known).
pub fn default_data_dir(xdg_data_home: Option<String>, home: Option<PathBuf>) -> (r: Result<PathBuf>)
    ensures
        match r {
            Ok(p) => default_data_dir_of(opt_text(xdg_data_home), home) == Some(p),
            Err(Error::Config(m)) => default_data_dir_of(opt_text(xdg_data_home), home) is None
                && m@ == "cannot determine home directory"@,
            Err(_) => false,
        },
{
    if let Some(x) = &xdg_data_home {
        if !x.as_str().is_empty() {
            let base = path_from(x.as_str());
            let w = path_join(&base, "wdttg");
            return Ok(path_join(&w, "data"));
        }
    }
    match home {
        Some(h) => {
            let a = path_join(&h, ".local");
            let b = path_join(&a, "share");
            let c = path_join(&b, "wdttg");
            Ok(path_join(&c, "data"))
        },
        None => Err(no_home()),
    }
}

/// The data directory that the preferences name, else the default one.
pub fn data_dir_from_prefs(prefs: &Preferences, xdg_data_home: Option<String>, home: Option<PathBuf>) -> (r: Result<PathBuf>)
    ensures
        match prefs.data_dir {
            Some(d) => r matches Ok(p) && p == d,
            None => match r {
                Ok(p) => default_data_dir_of(opt_text(xdg_data_home), home) == Some(p),
                Err(Error::Config(m)) => default_data_dir_of(opt_text(xdg_data_home), home) is None
                    && m@ == "cannot determine home directory"@,
                Err(_) => false,
            },
        },
{
    match &prefs.data_dir {
        Some(dir) => Ok(path_clone(dir)),
        None => default_data_dir(xdg_data_home, home),
    }
}

/// Returns the data directory. Uses config.preferences.data_dir if set,
/// otherwise the XDG data directory.
pub fn data_dir(config: &AppConfig, xdg_data_home: Option<String>, home: Option<PathBuf>) -> (r: Result<PathBuf>)
    ensures
        match config.preferences.data_dir {
            Some(d) => r matches Ok(p) && p == d,
            None => match r {
                Ok(p) => default_data_dir_of(opt_text(xdg_data_home), home) == Some(p),
                Err(Error::Config(m)) => default_data_dir_of(opt_text(xdg_data_home), home) is None
                    && m@ == "cannot determine home directory"@,
                Err(_) => false,
            },
        },
{
    data_dir_from_prefs(&config.preferences, xdg_data_home, home)
}

/// Returns the path to clients.toml in the data directory.
pub fn clients_path(config: &AppConfig, xdg_data_home: Option<String>, home: Option<PathBuf>) -> (r: Result<PathBuf>)
    ensures
        match config.preferences.data_dir {
            Some(d) => r matches Ok(p) && p == joined_path(d, "clients.toml"@),
            None => match r {
                Ok(p) => default_data_dir_of(opt_text(xdg_data_home), home) matches Some(d) && p
                    == joined_path(d, "clients.toml"@),
                Err(Error::Config(m)) => default_data_dir_of(opt_text(xdg_data_home), home) is None
                    && m@ == "cannot determine home directory"@,
                Err(_) => false,
            },
        },
{
    let dir = data_dir(config, xdg_data_home, home)?;
    Ok(path_join(&dir, "clients.toml"))
}

} // verus!
