//! File locations (XDG base directories) and the desktop entry.
//!
//! Paths are strings here; the values of the environment variables they depend
//! on are passed in (`None` when a variable is unset or not Unicode).

use vstd::prelude::*;

use crate::text::owned;

verus! {

/// `name` appended to the path `base`, as `Path::join` does on Unix: an
/// absolute `name` replaces `base`; otherwise a `/` separates them unless
/// `base` is empty or already ends with one.
pub open spec fn joined_path(base: Seq<char>, name: Seq<char>) -> Seq<char> {
    if name.len() > 0 && name[0] == '/' {
        name
    } else if base.len() == 0 || base.last() == '/' {
        base + name
    } else {
        base + seq!['/'] + name
    }
}

/// The value of an environment variable when it is set and not empty.
pub open spec fn non_empty(v: Option<Seq<char>>) -> Option<Seq<char>> {
    match v {
        Some(s) => if s.len() > 0 {
            Some(s)
        } else {
            None
        },
        None => None,
    }
}

/// The view of an optional string.
pub open spec fn opt_view(v: Option<String>) -> Option<Seq<char>> {
    match v {
        Some(s) => Some(s@),
        None => None,
    }
}

/// The home directory, `.` when `HOME` is unset.
pub open spec fn home_or_dot(home: Option<Seq<char>>) -> Seq<char> {
    match home {
        Some(h) => h,
        None => "."@,
    }
}

/// `$XDG_CONFIG_HOME`, else `$HOME/.config`.
pub open spec fn config_home_of(xdg_config_home: Option<Seq<char>>, home: Option<Seq<char>>) -> Seq<
    char,
> {
    match non_empty(xdg_config_home) {
        Some(c) => c,
        None => joined_path(home_or_dot(home), ".config"@),
    }
}

/// Pastel's configuration directory under the configuration home.
pub open spec fn config_dir_of(config_home: Seq<char>) -> Seq<char> {
    joined_path(config_home, "pastel"@)
}

/// `$XDG_DATA_HOME`, else `$HOME/.local/share`.
pub open spec fn data_home_of(xdg_data_home: Option<Seq<char>>, home: Option<Seq<char>>) -> Seq<
    char,
> {
    match non_empty(xdg_data_home) {
        Some(d) => d,
        None => joined_path(joined_path(home_or_dot(home), ".local"@), "share"@),
    }
}

/// The file name of the instance socket of `user` (`user` when unset).
pub open spec fn socket_name(user: Option<Seq<char>>) -> Seq<char> {
    "pastel-"@ + match user {
        Some(u) => u,
        None => "user"@,
    } + ".sock"@
}

/// `name` appended to the path `base` (`Path::join` on Unix).
pub fn join(base: &str, name: &str) -> (p: String)
    ensures
        p@ == joined_path(base@, name@),
{
    let n = crate::text::chars_of(name);
    if n.len() > 0 && n[0] == '/' {
        return owned(name);
    }
    let b = crate::text::chars_of(base);
    let mut p = owned(base);
    if !(b.len() == 0 || b[b.len() - 1] == '/') {
        p.push('/');
    }
    p.append(name);
    p
}

/// The configuration home: `$XDG_CONFIG_HOME` when set and not empty, else
/// `$HOME/.config` (with `.` for an unset `HOME`).
pub fn config_home(xdg_config_home: Option<String>, home: Option<String>) -> (p: String)
    ensures
        p@ == config_home_of(opt_view(xdg_config_home), opt_view(home)),
{
    if let Some(c) = xdg_config_home {
        if !c.as_str().is_empty() {
            return c;
        }
    }
    let h = match home {
        Some(h) => h,
        None => owned("."),
    };
    join(h.as_str(), ".config")
}

/// Pastel's configuration directory.
pub fn config_dir(config_home: &str) -> (p: String)
    ensures
        p@ == config_dir_of(config_home@),
{
    join(config_home, "pastel")
}

/// Where the history is saved.
pub fn history_path(config_home: &str) -> (p: String)
    ensures
        p@ == joined_path(config_dir_of(config_home@), "history.json"@),
{
    join(config_dir(config_home).as_str(), "history.json")
}

/// Where images are kept.
pub fn images_dir(config_home: &str) -> (p: String)
    ensures
        p@ == joined_path(config_dir_of(config_home@), "images"@),
{
    join(config_dir(config_home).as_str(), "images")
}

/// Where the settings are saved.
pub fn settings_path(config_home: &str) -> (p: String)
    ensures
        p@ == joined_path(config_dir_of(config_home@), "settings.json"@),
{
    join(config_dir(config_home).as_str(), "settings.json")
}

/// The desktop entry that starts Pastel at login.
pub fn autostart_path(config_home: &str) -> (p: String)
    ensures
        p@ == joined_path(joined_path(config_home@, "autostart"@), "pastel.desktop"@),
{
    join(join(config_home, "autostart").as_str(), "pastel.desktop")
}

/// The desktop entry that puts Pastel in the app menu, under the data home.
pub fn applications_path(xdg_data_home: Option<String>, home: Option<String>) -> (p: String)
    ensures
        p@ == joined_path(
            joined_path(data_home_of(opt_view(xdg_data_home), opt_view(home)), "applications"@),
            "pastel.desktop"@,
        ),
{
    let base = match xdg_data_home {
        Some(d) if !d.as_str().is_empty() => d,
        _ => {
            let h = match home {
                Some(h) => h,
                None => owned("."),
            };
            join(join(h.as_str(), ".local").as_str(), "share")
        },
    };
    join(join(base.as_str(), "applications").as_str(), "pastel.desktop")
}

/// The socket through which other instances reach the running one:
/// `pastel-<user>.sock` in `$XDG_RUNTIME_DIR`, else in `/tmp`.
pub fn socket_path(xdg_runtime_dir: Option<String>, user: Option<String>) -> (p: String)
    ensures
        p@ == joined_path(
            match non_empty(opt_view(xdg_runtime_dir)) {
                Some(d) => d,
                None => "/tmp"@,
            },
            socket_name(opt_view(user)),
        ),
{
    let base = match xdg_runtime_dir {
        Some(d) if !d.as_str().is_empty() => d,
        _ => owned("/tmp"),
    };
    let mut name = owned("pastel-");
    match user {
        Some(u) => name.append(u.as_str()),
        None => name.append("user"),
    }
    name.append(".sock");
    join(base.as_str(), name.as_str())
}

/// The part of the desktop entry before the command.
pub const DESKTOP_ENTRY_HEAD: &'static str = "[Desktop Entry]\nType=Application\nName=Pastel\nGenericName=Clipboard Manager\nComment=Clipboard history with search and pins\nKeywords=clipboard;history;paste;copy;\nExec=";

/// The part of the desktop entry after the command.
pub const DESKTOP_ENTRY_TAIL: &'static str = "\nIcon=edit-paste\nTerminal=false\nCategories=Utility;\nStartupWMClass=io.github.raheem_dotgit.Pastel\n";

/// The desktop entry that runs `exec`.
pub fn desktop_entry(exec: &str) -> (e: String)
    ensures
        e@ == DESKTOP_ENTRY_HEAD@ + exec@ + DESKTOP_ENTRY_TAIL@,
{
    let mut e = owned(DESKTOP_ENTRY_HEAD);
    e.append(exec);
    e.append(DESKTOP_ENTRY_TAIL);
    e
}

} // verus!
