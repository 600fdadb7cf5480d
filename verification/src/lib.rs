//! Pastel: the core of a Win+V style clipboard history manager.
//!
//! - `state`: the history (recording, trimming, copying back, display order);
//! - `models`: clips and settings;
//! - `backend`: what to read from the clipboard, given the types it offers;
//! - `format`: clip previews and relative times;
//! - `gvariant`: GVariant string arrays as `gsettings` uses them;
//! - `commands`: the command line, instance messages, and binding Super+V;
//! - `paths`: file locations and the desktop entry;
//! - `text`: character-level string helpers and their models.

pub mod backend;
pub mod commands;
pub mod format;
pub mod gvariant;
pub mod models;
pub mod paths;
pub mod state;
pub mod text;
