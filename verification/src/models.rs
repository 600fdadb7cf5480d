//! The data that Pastel keeps: clips and settings.

use vstd::prelude::*;

verus! {

/// One clip of the history.
///
/// `ts` stands for the time the clip was last copied: it holds the bit pattern
/// (`f64::to_bits`) of that UNIX time in seconds. For the non-negative times
/// that a clock gives, the order of these integers is the order of the times,
/// so the history can be ordered and compared by them exactly.
#[derive(Debug)]
pub struct ClipItem {
    pub text: String,
    pub pinned: bool,
    pub ts: u64,
}

impl Clone for ClipItem {
    fn clone(&self) -> (c: Self)
        ensures
            c == *self,
    {
        ClipItem { text: self.text.clone(), pinned: self.pinned, ts: self.ts }
    }
}

/// What closing the window does.
#[derive(Clone, Copy, Debug, PartialEq, Eq, Structural)]
pub enum CloseAction {
    Hide,
    Quit,
}

/// The colour theme of the window.
#[derive(Clone, Copy, Debug, PartialEq, Eq, Structural)]
pub enum AppTheme {
    SoftDark,
    SoftLight,
}

impl Default for AppTheme {
    fn default() -> (t: Self)
        ensures
            t == AppTheme::SoftDark,
    {
        AppTheme::SoftDark
    }
}

/// The user's preferences.
#[derive(Clone, Copy, Debug, PartialEq, Eq, Structural)]
pub struct Settings {
    /// How many unpinned clips the history keeps.
    pub max_items: usize,
    pub hide_after_copy: bool,
    pub close_action: CloseAction,
    pub autostart: bool,
    pub theme: AppTheme,
}

/// The settings a new installation starts with.
pub open spec fn default_settings() -> Settings {
    Settings {
        max_items: 100,
        hide_after_copy: true,
        close_action: CloseAction::Hide,
        autostart: false,
        theme: AppTheme::SoftDark,
    }
}

impl Default for Settings {
    fn default() -> (s: Self)
        ensures
            s == default_settings(),
    {
        Settings {
            max_items: 100,
            hide_after_copy: true,
            close_action: CloseAction::Hide,
            autostart: false,
            theme: AppTheme::SoftDark,
        }
    }
}

impl Settings {
    /// Whether closing the window quits the program (otherwise it hides).
    pub fn quits_on_close(&self) -> (b: bool)
        ensures
            b == (self.close_action == CloseAction::Quit),
    {
        self.close_action == CloseAction::Quit
    }
}

} // verus!
