# Pastel

The core of Pastel, a Win+V style clipboard history manager for GNOME and
other Wayland desktops, written in Verus: the history itself (recording new
clips, trimming to the configured size, copying clips back, the order in which
they are shown), the decisions around the clipboard (what to read, what to
skip), the GVariant lists that `gsettings` uses, file locations, and the text
shown in the window, each with a contract that Verus proves.

- `src/` is the verified library.
- `tests/` holds its tests.
- `app/` is the program around it: the GTK window, `wl-paste`/`wl-copy`,
  `gsettings`, the instance socket, and JSON files for the history and the
  settings.
