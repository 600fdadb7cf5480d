use pastel::paths::{
    applications_path, autostart_path, config_dir, config_home, desktop_entry, history_path,
    images_dir, join, settings_path, socket_path,
};

#[test]
fn config_home_prefers_xdg() {
    assert_eq!(
        config_home(Some("/x/conf".to_string()), Some("/home/u".to_string())),
        "/x/conf"
    );
    assert_eq!(
        config_home(Some(String::new()), Some("/home/u".to_string())),
        "/home/u/.config"
    );
    assert_eq!(config_home(None, Some("/home/u/".to_string())), "/home/u/.config");
    assert_eq!(config_home(None, None), "./.config");
}

#[test]
fn files_under_the_config_dir() {
    assert_eq!(config_dir("/home/u/.config"), "/home/u/.config/pastel");
    assert_eq!(history_path("/c"), "/c/pastel/history.json");
    assert_eq!(settings_path("/c"), "/c/pastel/settings.json");
    assert_eq!(images_dir("/c"), "/c/pastel/images");
    assert_eq!(autostart_path("/c"), "/c/autostart/pastel.desktop");
}

#[test]
fn join_follows_path_join() {
    assert_eq!(join("", "a"), "a");
    assert_eq!(join("/", "a"), "/a");
    assert_eq!(join("x", "/abs"), "/abs");
    assert_eq!(
        join("a/b", "c"),
        std::path::Path::new("a/b").join("c").display().to_string()
    );
}

#[test]
fn applications_and_socket_paths() {
    assert_eq!(
        applications_path(None, Some("/home/u".to_string())),
        "/home/u/.local/share/applications/pastel.desktop"
    );
    assert_eq!(
        applications_path(Some("/d".to_string()), None),
        "/d/applications/pastel.desktop"
    );
    assert_eq!(
        socket_path(Some("/run/user/1000".to_string()), Some("ann".to_string())),
        "/run/user/1000/pastel-ann.sock"
    );
    assert_eq!(socket_path(Some(String::new()), None), "/tmp/pastel-user.sock");
}

#[test]
fn desktop_entry_names_the_command() {
    let e = desktop_entry("/usr/bin/pastel");
    assert!(e.starts_with("[Desktop Entry]\nType=Application\nName=Pastel\n"));
    assert!(e.contains("\nExec=/usr/bin/pastel\nIcon=edit-paste\n"));
    assert!(e.ends_with("StartupWMClass=io.github.raheem_dotgit.Pastel\n"));
    assert_eq!(e.lines().count(), 11);
}
