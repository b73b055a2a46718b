//! Locations of the settings file and the language catalog, as text.
//!
//! The platform base directory itself comes from the embedding process;
//! everything after it is computed and specified here.

use vstd::prelude::*;

verus! {

/// The kind of platform the application runs on, as far as locations
/// are concerned.
#[derive(Clone, Copy, Debug, PartialEq, Eq, Structural)]
pub enum OsKind {
    /// A Linux system: the settings live in a dot-directory under home.
    Linux,
    /// A macOS system: the settings live under Application Support.
    MacOs,
    /// Anything else: the settings live under the configuration
    /// directory.
    Other,
}

/// What each platform appends to its base directory.
pub open spec fn dir_suffix(os: OsKind) -> Seq<char> {
    match os {
        OsKind::Linux => "/.brew-app"@,
        OsKind::MacOs => "/Library/Application Support/brew-app"@,
        OsKind::Other => "/brew-app"@,
    }
}

/// The settings directory under the platform base directory (home on
/// Linux and macOS, the configuration directory elsewhere).
pub fn settings_dir(os: OsKind, base: &str) -> (r: String)
    ensures
        r@ == base@ + dir_suffix(os),
{
    let mut out = base.to_owned();
    match os {
        OsKind::Linux => out.append("/.brew-app"),
        OsKind::MacOs => out.append("/Library/Application Support/brew-app"),
        OsKind::Other => out.append("/brew-app"),
    }
    out
}

/// The settings file inside the settings directory.
pub fn settings_file_path(dir: &str) -> (r: String)
    ensures
        r@ == dir@ + "/settings.json"@,
{
    let mut out = dir.to_owned();
    out.append("/settings.json");
    out
}

/// The language catalog directory inside the settings directory.
pub fn languages_dir(dir: &str) -> (r: String)
    ensures
        r@ == dir@ + "/languages"@,
{
    let mut out = dir.to_owned();
    out.append("/languages");
    out
}

/// The file name of one language pack.
pub fn language_file_name(code: &str) -> (r: String)
    ensures
        r@ == code@ + ".json"@,
{
    let mut out = code.to_owned();
    out.append(".json");
    out
}

} // verus!
