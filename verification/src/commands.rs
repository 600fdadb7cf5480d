//! The command line, the messages between instances, and binding Super+V in
//! GNOME.

use vstd::prelude::*;

use crate::gvariant::{
    format_list, formatted_list, law_list_round_trip, lemma_parsed_items_unquoted, parse_list,
    parsed_list,
};
use crate::text::{
    eq_ignore_ascii_case, has_prefix, owned, same_ignoring_ascii_case, same_text, starts_with, views,
};

verus! {

/// The GSettings schema of GNOME's media keys.
pub const MEDIA_KEYS: &'static str = "org.gnome.settings-daemon.plugins.media-keys";

/// The path of Pastel's custom key binding.
pub const SHORTCUT_PATH: &'static str = "/org/gnome/settings-daemon/plugins/media-keys/custom-keybindings/pastel/";

/// The GSettings schema of GNOME Shell's key bindings.
pub const SHELL_KEYBINDINGS: &'static str = "org.gnome.shell.keybindings";

// ---------------------------------------------------------------------------
// Command line and instance messages
// ---------------------------------------------------------------------------

/// What the program was asked to do on its command line.
#[derive(Clone, Copy, Debug, PartialEq, Eq, Structural)]
pub enum Command {
    /// Show the running instance's window, starting one if needed.
    Show,
    /// Ask the running instance to quit.
    Quit,
    /// Add the app menu entry and bind Super+V.
    Install,
    /// Update to the latest release.
    Update,
    /// Start the application.
    Run,
}

/// The command that the first argument names; anything else starts the app.
pub open spec fn command_of(arg: Option<Seq<char>>) -> Command {
    match arg {
        Some(a) => if a == "show"@ {
            Command::Show
        } else if a == "quit"@ {
            Command::Quit
        } else if a == "install"@ {
            Command::Install
        } else if a == "update"@ {
            Command::Update
        } else {
            Command::Run
        },
        None => Command::Run,
    }
}

/// The command named by the first command-line argument, if any.
pub fn parse_command(arg: Option<&str>) -> (c: Command)
    ensures
        c == command_of(
            match arg {
                Some(a) => Some(a@),
                None => None,
            },
        ),
{
    match arg {
        Some(a) => {
            if same_text(a, "show") {
                Command::Show
            } else if same_text(a, "quit") {
                Command::Quit
            } else if same_text(a, "install") {
                Command::Install
            } else if same_text(a, "update") {
                Command::Update
            } else {
                Command::Run
            }
        },
        None => Command::Run,
    }
}

/// Whether a message from another instance asks this one to quit (any other
/// message shows the window).
pub fn requests_quit(msg: &str) -> (b: bool)
    ensures
        b == has_prefix(msg@, "quit"@),
{
    starts_with(msg, "quit")
}

// ---------------------------------------------------------------------------
// Binding Super+V in GNOME
// ---------------------------------------------------------------------------

/// The steps of binding Super+V with `gsettings`. Each names the call whose
/// reply is handed to the next step.
#[derive(Clone, Copy, Debug, PartialEq, Eq, Structural)]
pub enum BindStep {
    /// Nothing has run yet.
    Start,
    /// Reading the shell's message-tray key bindings.
    ReadTray,
    /// Writing them back without Super+V.
    WriteTray,
    /// Reading the list of custom key bindings.
    ReadPaths,
    /// Writing it back with Pastel's binding.
    WritePaths,
    /// Naming Pastel's binding.
    SetName,
    /// Setting its command.
    SetCommand,
    /// Setting its key.
    SetBinding,
}

/// What to do next: run `gsettings` with these arguments, or stop.
pub enum BindAction {
    /// Run `gsettings` with the arguments; its reply goes to the given step.
    Run(BindStep, Vec<String>),
    /// Super+V is bound.
    Done,
    /// A `gsettings` call failed: GNOME settings are not available.
    Failed,
}

/// The model of [`BindAction`].
pub enum BindPlan {
    Run(BindStep, Seq<Seq<char>>),
    Done,
    Failed,
}

impl View for BindAction {
    type V = BindPlan;

    open spec fn view(&self) -> BindPlan {
        match self {
            BindAction::Run(step, args) => BindPlan::Run(*step, views(args@)),
            BindAction::Done => BindPlan::Done,
            BindAction::Failed => BindPlan::Failed,
        }
    }
}

/// A key binding that stays in the message-tray list: anything but Super+V
/// (compared ignoring ASCII case).
pub open spec fn tray_keeps() -> spec_fn(Seq<char>) -> bool {
    |k: Seq<char>| !same_ignoring_ascii_case(k, "<Super>v"@)
}

/// The custom key-binding paths with Pastel's added when it is missing.
pub open spec fn with_shortcut(paths: Seq<Seq<char>>) -> Seq<Seq<char>> {
    if paths.contains(SHORTCUT_PATH@) {
        paths
    } else {
        paths.push(SHORTCUT_PATH@)
    }
}

/// The relocatable schema of Pastel's key binding.
pub open spec fn binding_schema() -> Seq<char> {
    MEDIA_KEYS@ + ".custom-keybinding:"@ + SHORTCUT_PATH@
}

/// The next action of binding Super+V after `step`, whose call gave `reply`
/// (`None` when it failed); `exe` is the path of the program.
pub open spec fn bind_plan(step: BindStep, reply: Option<Seq<char>>, exe: Seq<char>) -> BindPlan {
    if step == BindStep::Start {
        BindPlan::Run(
            BindStep::ReadTray,
            seq!["get"@, SHELL_KEYBINDINGS@, "toggle-message-tray"@],
        )
    } else {
        match reply {
            None => BindPlan::Failed,
            Some(r) => match step {
                BindStep::ReadTray => BindPlan::Run(
                    BindStep::WriteTray,
                    seq![
                        "set"@,
                        SHELL_KEYBINDINGS@,
                        "toggle-message-tray"@,
                        formatted_list(parsed_list(r).filter(tray_keeps())),
                    ],
                ),
                BindStep::WriteTray => BindPlan::Run(
                    BindStep::ReadPaths,
                    seq!["get"@, MEDIA_KEYS@, "custom-keybindings"@],
                ),
                BindStep::ReadPaths => BindPlan::Run(
                    BindStep::WritePaths,
                    seq![
                        "set"@,
                        MEDIA_KEYS@,
                        "custom-keybindings"@,
                        formatted_list(with_shortcut(parsed_list(r))),
                    ],
                ),
                BindStep::WritePaths => BindPlan::Run(
                    BindStep::SetName,
                    seq!["set"@, binding_schema(), "name"@, "'Pastel'"@],
                ),
                BindStep::SetName => BindPlan::Run(
                    BindStep::SetCommand,
                    seq!["set"@, binding_schema(), "command"@, "'"@ + exe + " show'"@],
                ),
                BindStep::SetCommand => BindPlan::Run(
                    BindStep::SetBinding,
                    seq!["set"@, binding_schema(), "binding"@, "'<Super>v'"@],
                ),
                _ => BindPlan::Done,
            },
        }
    }
}

/// The key bindings of `tray` without Super+V.
fn without_super_v(tray: &Vec<String>) -> (kept: Vec<String>)
    ensures
        views(kept@) == views(tray@).filter(tray_keeps()),
{
    broadcast use Seq::lemma_filter_push;

    let ghost all = views(tray@);
    let mut kept: Vec<String> = Vec::new();
    let mut i: usize = 0;
    assert(all.take(0) =~= Seq::<Seq<char>>::empty());
    assert(all.take(0).filter(tray_keeps()) =~= Seq::<Seq<char>>::empty()) by {
        reveal(Seq::filter);
    }
    while i < tray.len()
        invariant
            all == views(tray@),
            i <= tray.len(),
            views(kept@) == all.take(i as int).filter(tray_keeps()),
        decreases tray.len() - i,
    {
        proof {
            assert(all.take(i + 1) =~= all.take(i as int).push(all[i as int]));
            all.take(i as int).lemma_filter_push(all[i as int], tray_keeps());
        }
        if !eq_ignore_ascii_case(tray[i].as_str(), "<Super>v") {
            let ghost before = kept@;
            kept.push(tray[i].clone());
            assert(views(kept@) =~= views(before).push(tray@[i as int]@));
        }
        i = i + 1;
    }
    assert(all.take(tray.len() as int) =~= all);
    kept
}

/// The custom key-binding paths with Pastel's added when it is missing.
fn add_shortcut_path(mut paths: Vec<String>) -> (r: Vec<String>)
    ensures
        views(r@) == with_shortcut(views(paths@)),
{
    let mut i: usize = 0;
    while i < paths.len()
        invariant
            i <= paths.len(),
            forall|k: int| 0 <= k < i ==> paths@[k]@ != SHORTCUT_PATH@,
        decreases paths.len() - i,
    {
        if same_text(paths[i].as_str(), SHORTCUT_PATH) {
            assert(views(paths@)[i as int] == SHORTCUT_PATH@);
            assert(views(paths@).contains(SHORTCUT_PATH@));
            return paths;
        }
        i = i + 1;
    }
    proof {
        if views(paths@).contains(SHORTCUT_PATH@) {
            let k = choose|k: int| 0 <= k < paths@.len() && views(paths@)[k] == SHORTCUT_PATH@;
            assert(paths@[k]@ == SHORTCUT_PATH@);
        }
    }
    let ghost before = paths@;
    paths.push(owned(SHORTCUT_PATH));
    assert(views(paths@) =~= views(before).push(SHORTCUT_PATH@));
    paths
}

/// The arguments `a`, `b`, `c`, `d` as a list.
fn args4(a: String, b: String, c: String, d: String) -> (v: Vec<String>)
    ensures
        views(v@) == seq![a@, b@, c@, d@],
{
    let mut v = Vec::new();
    v.push(a);
    v.push(b);
    v.push(c);
    v.push(d);
    assert(views(v@) =~= seq![a@, b@, c@, d@]);
    v
}

/// The arguments `a`, `b`, `c` as a list.
fn args3(a: String, b: String, c: String) -> (v: Vec<String>)
    ensures
        views(v@) == seq![a@, b@, c@],
{
    let mut v = Vec::new();
    v.push(a);
    v.push(b);
    v.push(c);
    assert(views(v@) =~= seq![a@, b@, c@]);
    v
}

/// The schema of Pastel's key binding.
fn schema() -> (s: String)
    ensures
        s@ == binding_schema(),
{
    let mut s = owned(MEDIA_KEYS);
    s.append(".custom-keybinding:");
    s.append(SHORTCUT_PATH);
    s
}

/// One step of binding Super+V to `<exe> show` in GNOME: given the step that
/// ran and the reply of its `gsettings` call (`None` when it failed), what to
/// run next. GNOME uses Super+V for the notification list, so that binding is
/// removed first (Super+M still opens it); then Pastel's custom binding is
/// added to the list and given its name, command and key.
pub fn bind_super_v_step(step: BindStep, reply: Option<String>, exe: &str) -> (a: BindAction)
    ensures
        a@ == bind_plan(
            step,
            match reply {
                Some(r) => Some(r@),
                None => None,
            },
            exe@,
        ),
{
    if step == BindStep::Start {
        return BindAction::Run(
            BindStep::ReadTray,
            args3(owned("get"), owned(SHELL_KEYBINDINGS), owned("toggle-message-tray")),
        );
    }
    let r = match reply {
        Some(r) => r,
        None => {
            return BindAction::Failed;
        },
    };
    match step {
        BindStep::ReadTray => {
            let tray = parse_list(r.as_str());
            let kept = without_super_v(&tray);
            BindAction::Run(
                BindStep::WriteTray,
                args4(
                    owned("set"),
                    owned(SHELL_KEYBINDINGS),
                    owned("toggle-message-tray"),
                    format_list(kept.as_slice()),
                ),
            )
        },
        BindStep::WriteTray => BindAction::Run(
            BindStep::ReadPaths,
            args3(owned("get"), owned(MEDIA_KEYS), owned("custom-keybindings")),
        ),
        BindStep::ReadPaths => {
            let paths = add_shortcut_path(parse_list(r.as_str()));
            BindAction::Run(
                BindStep::WritePaths,
                args4(
                    owned("set"),
                    owned(MEDIA_KEYS),
                    owned("custom-keybindings"),
                    format_list(paths.as_slice()),
                ),
            )
        },
        BindStep::WritePaths => BindAction::Run(
            BindStep::SetName,
            args4(owned("set"), schema(), owned("name"), owned("'Pastel'")),
        ),
        BindStep::SetName => {
            let mut command = owned("'");
            command.append(exe);
            command.append(" show'");
            BindAction::Run(
                BindStep::SetCommand,
                args4(owned("set"), schema(), owned("command"), command),
            )
        },
        BindStep::SetCommand => BindAction::Run(
            BindStep::SetBinding,
            args4(owned("set"), schema(), owned("binding"), owned("'<Super>v'")),
        ),
        _ => BindAction::Done,
    }
}

/// Adding Pastel's path keeps every path that was there, in order, and adds
/// Pastel's at the end only when it is missing.
pub proof fn law_shortcut_keeps_paths(p: Seq<Seq<char>>)
    ensures
        with_shortcut(p).take(p.len() as int) == p,
        with_shortcut(p).contains(SHORTCUT_PATH@),
        p.contains(SHORTCUT_PATH@) ==> with_shortcut(p) == p,
        !p.contains(SHORTCUT_PATH@) ==> with_shortcut(p).len() == p.len() + 1,
{
    if !p.contains(SHORTCUT_PATH@) {
        assert(p.push(SHORTCUT_PATH@).take(p.len() as int) =~= p);
        assert(p.push(SHORTCUT_PATH@)[p.len() as int] == SHORTCUT_PATH@);
    } else {
        assert(p.take(p.len() as int) =~= p);
    }
}

proof fn lemma_shortcut_unquoted()
    ensures
        !SHORTCUT_PATH@.contains('\''),
{
    reveal_strlit("/org/gnome/settings-daemon/plugins/media-keys/custom-keybindings/pastel/");
    let v = SHORTCUT_PATH@;
    assert(v == "/org/gnome/settings-daemon/plugins/media-keys/custom-keybindings/pastel/"@);
    if v.contains('\'') {
        let k = choose|k: int| 0 <= k < v.len() && v[k] == '\'';
    }
}

/// The custom key bindings read at `ReadPaths` are all written back, in
/// order, at `WritePaths`, followed by Pastel's own path when it was missing;
/// the list written always holds Pastel's path.
pub proof fn law_bind_keeps_custom_bindings(reply: Seq<char>, exe: Seq<char>)
    ensures
        match bind_plan(BindStep::ReadPaths, Some(reply), exe) {
            BindPlan::Run(step, args) => {
                let read = parsed_list(reply);
                let written = parsed_list(args[3]);
                &&& step == BindStep::WritePaths
                &&& args.len() == 4
                &&& args[0] == "set"@
                &&& args[1] == MEDIA_KEYS@
                &&& args[2] == "custom-keybindings"@
                &&& written.take(read.len() as int) == read
                &&& written.contains(SHORTCUT_PATH@)
                &&& written.len() <= read.len() + 1
            },
            _ => false,
        },
{
    let read = parsed_list(reply);
    let w = with_shortcut(read);
    lemma_parsed_items_unquoted(reply);
    lemma_shortcut_unquoted();
    law_shortcut_keeps_paths(read);
    assert forall|i: int| 0 <= i < w.len() implies !(#[trigger] w[i]).contains('\'') by {
        if i < read.len() {
            assert(w[i] == read[i]);
        }
    }
    law_list_round_trip(w);
}

/// Of the message-tray bindings read at `ReadTray`, exactly those other than
/// Super+V (in any ASCII case) are written back at `WriteTray`, in order.
pub proof fn law_bind_drops_only_super_v(reply: Seq<char>, exe: Seq<char>)
    ensures
        match bind_plan(BindStep::ReadTray, Some(reply), exe) {
            BindPlan::Run(step, args) => {
                let read = parsed_list(reply);
                let written = parsed_list(args[3]);
                &&& step == BindStep::WriteTray
                &&& args.len() == 4
                &&& args[0] == "set"@
                &&& args[1] == SHELL_KEYBINDINGS@
                &&& args[2] == "toggle-message-tray"@
                &&& forall|k: Seq<char>|
                    #[trigger] written.contains(k) ==> read.contains(k) && !same_ignoring_ascii_case(
                        k,
                        "<Super>v"@,
                    )
                &&& forall|k: Seq<char>|
                    #[trigger] read.contains(k) && !same_ignoring_ascii_case(k, "<Super>v"@)
                        ==> written.contains(k)
                &&& written.len() <= read.len()
            },
            _ => false,
        },
{
    broadcast use vstd::seq_lib::group_filter_ensures;

    let read = parsed_list(reply);
    let w = read.filter(tray_keeps());
    lemma_parsed_items_unquoted(reply);
    assert forall|i: int| 0 <= i < w.len() implies !(#[trigger] w[i]).contains('\'') by {
        assert(w.contains(w[i]));
        read.lemma_filter_contains_rev(tray_keeps(), w[i]);
        let j = choose|j: int| 0 <= j < read.len() && read[j] == w[i];
    }
    law_list_round_trip(w);
    assert forall|k: Seq<char>| #[trigger] read.contains(k) && !same_ignoring_ascii_case(k, "<Super>v"@)
        implies w.contains(k) by {
        let j = choose|j: int| 0 <= j < read.len() && read[j] == k;
        assert(tray_keeps()(read[j]));
    }
    assert forall|k: Seq<char>| #[trigger] w.contains(k) implies read.contains(k)
        && !same_ignoring_ascii_case(k, "<Super>v"@) by {
        let j = choose|j: int| 0 <= j < w.len() && w[j] == k;
        assert(tray_keeps()(w[j]));
        read.lemma_filter_contains_rev(tray_keeps(), k);
    }
}

} // verus!
