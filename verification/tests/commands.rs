use pastel::commands::{
    bind_super_v_step, parse_command, requests_quit, BindAction, BindStep, Command, MEDIA_KEYS,
    SHORTCUT_PATH,
};

fn run(action: BindAction) -> (BindStep, Vec<String>) {
    match action {
        BindAction::Run(step, args) => (step, args),
        BindAction::Done => panic!("unexpected Done"),
        BindAction::Failed => panic!("unexpected Failed"),
    }
}

#[test]
fn commands_from_arguments() {
    assert_eq!(parse_command(Some("show")), Command::Show);
    assert_eq!(parse_command(Some("quit")), Command::Quit);
    assert_eq!(parse_command(Some("install")), Command::Install);
    assert_eq!(parse_command(Some("update")), Command::Update);
    assert_eq!(parse_command(Some("Show")), Command::Run);
    assert_eq!(parse_command(Some("")), Command::Run);
    assert_eq!(parse_command(None), Command::Run);
}

#[test]
fn quit_messages() {
    assert!(requests_quit("quit"));
    assert!(requests_quit("quit\n"));
    assert!(!requests_quit("show"));
    assert!(!requests_quit("qui"));
    assert!(!requests_quit(""));
}

#[test]
fn binding_super_v_walks_through_gsettings() {
    let (step, args) = run(bind_super_v_step(BindStep::Start, None, "/bin/pastel"));
    assert_eq!(step, BindStep::ReadTray);
    assert_eq!(args, ["get", "org.gnome.shell.keybindings", "toggle-message-tray"]);

    let (step, args) = run(bind_super_v_step(
        step,
        Some("['<Super>V', '<Super>m']".to_string()),
        "/bin/pastel",
    ));
    assert_eq!(step, BindStep::WriteTray);
    assert_eq!(
        args,
        ["set", "org.gnome.shell.keybindings", "toggle-message-tray", "['<Super>m']"]
    );

    let (step, args) = run(bind_super_v_step(step, Some(String::new()), "/bin/pastel"));
    assert_eq!(step, BindStep::ReadPaths);
    assert_eq!(args, ["get", MEDIA_KEYS, "custom-keybindings"]);

    let (step, args) = run(bind_super_v_step(step, Some("@as []".to_string()), "/bin/pastel"));
    assert_eq!(step, BindStep::WritePaths);
    assert_eq!(
        args,
        [
            "set".to_string(),
            MEDIA_KEYS.to_string(),
            "custom-keybindings".to_string(),
            format!("['{SHORTCUT_PATH}']"),
        ]
    );

    let schema = format!("{MEDIA_KEYS}.custom-keybinding:{SHORTCUT_PATH}");
    let (step, args) = run(bind_super_v_step(step, Some(String::new()), "/bin/pastel"));
    assert_eq!(step, BindStep::SetName);
    assert_eq!(args, ["set", schema.as_str(), "name", "'Pastel'"]);

    let (step, args) = run(bind_super_v_step(step, Some(String::new()), "/bin/pastel"));
    assert_eq!(step, BindStep::SetCommand);
    assert_eq!(args, ["set", schema.as_str(), "command", "'/bin/pastel show'"]);

    let (step, args) = run(bind_super_v_step(step, Some(String::new()), "/bin/pastel"));
    assert_eq!(step, BindStep::SetBinding);
    assert_eq!(args, ["set", schema.as_str(), "binding", "'<Super>v'"]);

    assert!(matches!(
        bind_super_v_step(step, Some(String::new()), "/bin/pastel"),
        BindAction::Done
    ));
}

#[test]
fn existing_shortcut_path_is_not_added_twice() {
    let listing = format!("['/other/', '{SHORTCUT_PATH}']");
    let (_, args) = run(bind_super_v_step(BindStep::ReadPaths, Some(listing.clone()), "x"));
    assert_eq!(args[3], listing);
}

#[test]
fn a_failed_call_stops_binding() {
    for step in [
        BindStep::ReadTray,
        BindStep::WriteTray,
        BindStep::ReadPaths,
        BindStep::WritePaths,
        BindStep::SetName,
        BindStep::SetCommand,
        BindStep::SetBinding,
    ] {
        assert!(matches!(bind_super_v_step(step, None, "x"), BindAction::Failed));
    }
}
