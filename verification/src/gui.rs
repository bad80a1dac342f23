use vstd::prelude::*;
use crate::entry::{EntryKind, FsEntry, ScanError, scan_error_text};
use crate::path::{path_parent_of, parent_path};
use crate::text::{trim_spec, trim_text};
use crate::state::{AppState, StateV, enter_spec, parent_spec, up_spec, down_spec, children_spec};

verus! {

/// A user action in the graphical interface.
#[derive(Debug, Clone)]
pub enum Message {
    RootChanged(String),
    ScanPressed,
    RefreshPressed,
    EnterChild(usize),
    GoParent,
}

/// The state of the graphical interface: the path typed in, the scanned tree once a scan
/// succeeded, and the message of the last failed scan.
pub struct GuiApp {
    pub root_input: String,
    pub state: Option<AppState>,
    pub error: Option<String>,
}

/// What the graphical interface asks its runner to do after a message.
#[derive(Debug, Clone)]
pub enum GuiCommand {
    /// Nothing more.
    Nothing,
    /// Scan the path, then hand the outcome to `GuiApp::apply_scan_result`.
    Scan(String),
}

/// The interface state as plain values: typed path, navigation state, error.
pub type GuiV = (Seq<char>, Option<StateV>, Option<Seq<char>>);

/// The text of an optional string.
pub open spec fn opt_text(o: Option<String>) -> Option<Seq<char>> {
    match o {
        Some(s) => Some(s@),
        None => None,
    }
}

/// The plain values of an optional navigation state.
pub open spec fn opt_state(o: Option<AppState>) -> Option<StateV> {
    match o {
        Some(s) => Some(s@),
        None => None,
    }
}

impl View for GuiApp {
    type V = GuiV;

    open spec fn view(&self) -> GuiV {
        (self.root_input@, opt_state(self.state), opt_text(self.error))
    }
}

/// The plain values of a command.
pub open spec fn command_view(c: GuiCommand) -> Option<Seq<char>> {
    match c {
        GuiCommand::Nothing => None,
        GuiCommand::Scan(p) => Some(p@),
    }
}

/// The interface after `m`, and the path to scan if `m` asks for a scan: a typed path replaces
/// the input; Scan and Refresh scan the trimmed input; opening child `idx` selects it and opens
/// it; Up goes to the parent. Without a scanned tree, navigation does nothing.
pub open spec fn update_spec(g: GuiV, m: Message) -> (GuiV, Option<Seq<char>>) {
    match m {
        Message::RootChanged(v) => ((v@, g.1, g.2), None),
        Message::ScanPressed | Message::RefreshPressed => (g, Some(trim_spec(g.0))),
        Message::EnterChild(idx) => match g.1 {
            Some(s) => ((g.0, Some(enter_spec((s.0, s.1, idx, s.3))), g.2), None),
            None => (g, None),
        },
        Message::GoParent => match g.1 {
            Some(s) => ((g.0, Some(parent_spec(s)), g.2), None),
            None => (g, None),
        },
    }
}

impl GuiApp {
    /// An interface with `root_input` typed in, nothing scanned and no error.
    pub fn new(root_input: String) -> (app: GuiApp)
        ensures
            app@ == (root_input@, None::<StateV>, None::<Seq<char>>),
    {
        GuiApp { root_input, state: None, error: None }
    }

    /// The path that a scan of the typed input reads: the input without surrounding white
    /// space.
    pub fn scan_target(&self) -> (p: String)
        ensures
            p@ == trim_spec(self.root_input@),
    {
        trim_text(self.root_input.as_str())
    }

    /// Takes in the outcome of a scan: a scanned tree replaces the shown one and clears the
    /// error; a failure keeps the shown tree and records its message.
    pub fn apply_scan_result(&mut self, result: Result<AppState, String>)
        ensures
            final(self)@ == (match result {
                Ok(s) => (old(self)@.0, Some(s@), None::<Seq<char>>),
                Err(e) => (old(self)@.0, old(self)@.1, Some(e@)),
            }),
    {
        match result {
            Ok(s) => {
                self.state = Some(s);
                self.error = None;
            },
            Err(e) => {
                self.error = Some(e);
            },
        }
    }
}

/// Applies `message` to `app`; the command says whether a scan must follow.
pub fn update(app: &mut GuiApp, message: Message) -> (cmd: GuiCommand)
    ensures
        (final(app)@, command_view(cmd)) == update_spec(old(app)@, message),
{
    match message {
        Message::RootChanged(value) => {
            app.root_input = value;
            GuiCommand::Nothing
        },
        Message::ScanPressed | Message::RefreshPressed => GuiCommand::Scan(app.scan_target()),
        Message::EnterChild(idx) => {
            if let Some(mut state) = app.state.take() {
                state.selected_index = idx;
                state.enter_selected();
                app.state = Some(state);
            }
            GuiCommand::Nothing
        },
        Message::GoParent => {
            if let Some(mut state) = app.state.take() {
                state.go_parent();
                app.state = Some(state);
            }
            GuiCommand::Nothing
        },
    }
}

/// The navigation state for the outcome of a scan: a fresh state on its tree, or the message of
/// its error.
pub fn init_state_from_scan(scan: Result<FsEntry, ScanError>) -> (res: Result<AppState, String>)
    ensures
        match (scan, res) {
            (Ok(root), Ok(s)) => s@ == (root, root.path@, 0usize, 0usize),
            (Err(e), Err(m)) => m@ == scan_error_text(e),
            _ => false,
        },
{
    match scan {
        Ok(root) => Ok(AppState::new(root)),
        Err(e) => Err(e.message()),
    }
}

/// The title of the window.
pub fn gui_title(app: &GuiApp) -> (t: String)
    ensures
        t@ == "treefold (GUI)"@,
{
    String::from_str("treefold (GUI)")
}

/// The label of the menu item that opens an entry's location.
pub fn context_open_label(kind: EntryKind) -> (s: &'static str)
    ensures
        s@ == (if kind == EntryKind::Directory { "Open this directory"@ } else { "View in parent"@ }),
{
    match kind {
        EntryKind::Directory => "Open this directory",
        EntryKind::File => "View in parent",
    }
}

/// The label of the menu item that deletes an entry.
pub fn context_delete_label(kind: EntryKind) -> (s: &'static str)
    ensures
        s@ == (if kind == EntryKind::Directory { "Delete this folder"@ } else { "Delete this file"@ }),
{
    match kind {
        EntryKind::Directory => "Delete this folder",
        EntryKind::File => "Delete this file",
    }
}

/// The location to open in the file browser for an entry: a directory itself, the parent of a
/// file (the file itself where its path has no parent).
pub fn open_target_path(kind: EntryKind, path: &str) -> (p: String)
    ensures
        p@ == (if kind == EntryKind::Directory {
            path@
        } else {
            match path_parent_of(path@) {
                Some(q) => q,
                None => path@,
            }
        }),
{
    match kind {
        EntryKind::Directory => String::from_str(path),
        EntryKind::File => match parent_path(path) {
            Some(q) => q,
            None => String::from_str(path),
        },
    }
}

/// The path the graphical interface starts in: the home directory, else the Windows user
/// profile, else the working directory, else `.`.
pub fn resolve_default_root_path_from_env(home: Option<String>, userprofile: Option<String>, cwd: Option<String>) -> (p: String)
    ensures
        p@ == (match (opt_text(home), opt_text(userprofile), opt_text(cwd)) {
            (Some(h), _, _) => h,
            (None, Some(u), _) => u,
            (None, None, Some(c)) => c,
            (None, None, None) => "."@,
        }),
{
    match home {
        Some(h) => h,
        None => match userprofile {
            Some(u) => u,
            None => match cwd {
                Some(c) => c,
                None => String::from_str("."),
            },
        },
    }
}

/// What a key press asks of the graphical interface.
#[derive(Debug, Clone, Copy, PartialEq, Eq, Structural)]
pub enum GuiKeyAction {
    Up,
    Down,
    Enter,
    Back,
    Nothing,
}

/// A key of the graphical interface; keys that no binding uses are `Other`.
#[derive(Debug, Clone, Copy, PartialEq, Eq, Structural)]
pub enum GuiKey {
    ArrowUp,
    ArrowDown,
    ArrowLeft,
    ArrowRight,
    Enter,
    Escape,
    Other,
}

/// The action bound to a key in the graphical interface: the arrows move and open as in the
/// terminal interface, Enter opens, Escape goes back; letters, `q` among them, do nothing.
pub open spec fn gui_key_spec(key: GuiKey) -> GuiKeyAction {
    match key {
        GuiKey::ArrowUp => GuiKeyAction::Up,
        GuiKey::ArrowDown => GuiKeyAction::Down,
        GuiKey::ArrowRight | GuiKey::Enter => GuiKeyAction::Enter,
        GuiKey::ArrowLeft | GuiKey::Escape => GuiKeyAction::Back,
        GuiKey::Other => GuiKeyAction::Nothing,
    }
}

/// The action bound to `key` in the graphical interface.
pub fn map_gui_key(key: GuiKey) -> (a: GuiKeyAction)
    ensures
        a == gui_key_spec(key),
{
    match key {
        GuiKey::ArrowUp => GuiKeyAction::Up,
        GuiKey::ArrowDown => GuiKeyAction::Down,
        GuiKey::ArrowRight | GuiKey::Enter => GuiKeyAction::Enter,
        GuiKey::ArrowLeft | GuiKey::Escape => GuiKeyAction::Back,
        GuiKey::Other => GuiKeyAction::Nothing,
    }
}

/// The navigation state after a key action of the graphical interface.
pub open spec fn gui_key_step(v: StateV, a: GuiKeyAction) -> StateV {
    match a {
        GuiKeyAction::Up => up_spec(v),
        GuiKeyAction::Down => down_spec(v),
        GuiKeyAction::Enter => enter_spec(v),
        GuiKeyAction::Back => parent_spec(v),
        GuiKeyAction::Nothing => v,
    }
}

/// Applies a key action of the graphical interface to the navigation state.
pub fn apply_gui_key(state: &mut AppState, action: GuiKeyAction)
    requires
        children_spec(old(state)@).len() > 0 && action == GuiKeyAction::Down ==> old(state).selected_index
            < usize::MAX,
    ensures
        final(state)@ == gui_key_step(old(state)@, action),
{
    match action {
        GuiKeyAction::Up => state.move_up(),
        GuiKeyAction::Down => state.move_down(),
        GuiKeyAction::Enter => state.enter_selected(),
        GuiKeyAction::Back => state.go_parent(),
        GuiKeyAction::Nothing => {},
    }
}

} // verus!
