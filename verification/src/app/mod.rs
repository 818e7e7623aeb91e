//! The terminal as a whole: the settings, the open tabs and the windows over
//! them, and what the user can do with all of it.
//!
//! What needs the world outside is handed to the caller as an [`Effect`], and
//! what came of it is reported back.

pub mod actions;
pub mod dialogs;
pub mod events;
pub mod exit;
pub mod help;
pub mod helper;
pub mod menus;
pub mod order;
pub mod port_owner;
pub mod search;
pub mod shortcuts;
pub mod sidebar;
pub mod status;
pub mod titlebar;
pub mod transfer;
pub mod updates;

use crate::config::profile::{RemoteModel, RemoteProfile, SerialModel, SerialProfile};
use crate::config::settings::{Settings, SettingsModel};
use crate::layout::Axis;
use crate::session::{KindModel, SessionKind};
use crate::workspace::{Workspace, WorkspaceModel};
use vstd::prelude::*;

verus! {

/// What the user can ask for.
#[derive(Debug)]
pub enum Action {
    /// Open a tab with a session.
    New(SessionKind),
    /// Open another application window.
    NewWindow,
    /// Open a new tab with the same session as this tab's focused pane.
    DuplicateSession(usize),
    /// Split the focused pane.
    Split(Axis),
    /// Close a tab.
    CloseTab(usize),
    /// Close every tab except this one.
    CloseOtherTabs(usize),
    /// Close every tab whose sessions have all ended.
    CloseDisconnectedTabs,
    /// Look for a newer release.
    CheckUpdates,
    /// Close the focused pane.
    ClosePane,
    /// Start the focused session anew.
    Restart,
    /// End the focused session and keep its pane.
    Disconnect,
    /// Open the form for a new connection.
    Remote,
    /// Open the form for a saved SSH connection.
    Edit(usize),
    /// Remove a saved SSH connection.
    Remove(usize),
    /// Copy a saved SSH connection.
    Duplicate(usize),
    /// Copy a saved serial connection.
    DuplicateSerial(usize),
    /// Open the serial picker.
    SerialPicker,
    /// Look for the program holding a serial port.
    FindPortOwner(String),
    /// Open the form for a saved serial connection.
    EditSerial(usize),
    /// Remove a saved serial connection.
    RemoveSerial(usize),
    /// Copy an imported host into the saved connections.
    AdoptSshConfig(RemoteProfile),
    /// Open the server toolbox.
    Toolbox,
    /// Open the file window.
    Files,
}

/// What an action asks for.
pub enum ActionModel {
    New(KindModel),
    NewWindow,
    DuplicateSession(usize),
    Split(Axis),
    CloseTab(usize),
    CloseOtherTabs(usize),
    CloseDisconnectedTabs,
    CheckUpdates,
    ClosePane,
    Restart,
    Disconnect,
    Remote,
    Edit(usize),
    Remove(usize),
    Duplicate(usize),
    DuplicateSerial(usize),
    SerialPicker,
    FindPortOwner(Seq<char>),
    EditSerial(usize),
    RemoveSerial(usize),
    AdoptSshConfig(RemoteModel),
    Toolbox,
    Files,
}

impl View for Action {
    type V = ActionModel;

    open spec fn view(&self) -> ActionModel {
        match self {
            Action::New(kind) => ActionModel::New(kind@),
            Action::NewWindow => ActionModel::NewWindow,
            Action::DuplicateSession(i) => ActionModel::DuplicateSession(*i),
            Action::Split(axis) => ActionModel::Split(*axis),
            Action::CloseTab(i) => ActionModel::CloseTab(*i),
            Action::CloseOtherTabs(i) => ActionModel::CloseOtherTabs(*i),
            Action::CloseDisconnectedTabs => ActionModel::CloseDisconnectedTabs,
            Action::CheckUpdates => ActionModel::CheckUpdates,
            Action::ClosePane => ActionModel::ClosePane,
            Action::Restart => ActionModel::Restart,
            Action::Disconnect => ActionModel::Disconnect,
            Action::Remote => ActionModel::Remote,
            Action::Edit(i) => ActionModel::Edit(*i),
            Action::Remove(i) => ActionModel::Remove(*i),
            Action::Duplicate(i) => ActionModel::Duplicate(*i),
            Action::DuplicateSerial(i) => ActionModel::DuplicateSerial(*i),
            Action::SerialPicker => ActionModel::SerialPicker,
            Action::FindPortOwner(port) => ActionModel::FindPortOwner(port@),
            Action::EditSerial(i) => ActionModel::EditSerial(*i),
            Action::RemoveSerial(i) => ActionModel::RemoveSerial(*i),
            Action::AdoptSshConfig(p) => ActionModel::AdoptSshConfig(p@),
            Action::Toolbox => ActionModel::Toolbox,
            Action::Files => ActionModel::Files,
        }
    }
}

/// What the caller has to do after an action.
#[derive(Debug)]
pub enum Effect {
    /// Nothing.
    Nothing,
    /// Start the program once more.
    OpenWindow,
    /// Announce the target in the pane's console, start the session there, and
    /// report whether it started.
    Connect { tab: u64, pane: u64, kind: SessionKind, target: Option<String> },
    /// End the session that still runs in the pane, then connect as above. A
    /// serial device is exclusive, and leftover output must not land in the
    /// screen that is used again.
    Reconnect { tab: u64, pane: u64, kind: SessionKind, target: Option<String> },
    /// Announce the target in the pane's console and ask for the credentials.
    Login { tab: u64, pane: u64, profile: RemoteProfile, address: String },
    /// Start a session for a split, over the focused pane's connection or on its
    /// own, and report it.
    SplitSession { axis: Axis, kind: SessionKind, remote: bool },
    /// Start a session in the pane in place of the one that runs there, and
    /// report it.
    Exchange { tab: u64, pane: u64, kind: SessionKind },
    /// Write a note into the pane's console and end its session.
    Detach { tab: u64, pane: u64, note: String },
    /// Look for a newer release.
    CheckUpdates,
    /// List the serial ports and report them.
    ListPorts,
    /// List the serial ports and open the picker with them.
    OpenPicker,
    /// Save the settings.
    Persist,
    /// Look for the program holding a serial port.
    OpenPortOwner(String),
    /// Open the server toolbox for a connection.
    OpenToolbox(RemoteProfile),
    /// Open the file window.
    OpenFiles,
}

/// What an effect asks for.
pub enum EffectModel {
    Nothing,
    OpenWindow,
    Connect { tab: u64, pane: u64, kind: KindModel, target: Option<Seq<char>> },
    Reconnect { tab: u64, pane: u64, kind: KindModel, target: Option<Seq<char>> },
    Login { tab: u64, pane: u64, profile: RemoteModel, address: Seq<char> },
    SplitSession { axis: Axis, kind: KindModel, remote: bool },
    Exchange { tab: u64, pane: u64, kind: KindModel },
    Detach { tab: u64, pane: u64, note: Seq<char> },
    CheckUpdates,
    ListPorts,
    OpenPicker,
    Persist,
    OpenPortOwner(Seq<char>),
    OpenToolbox(RemoteModel),
    OpenFiles,
}

impl View for Effect {
    type V = EffectModel;

    open spec fn view(&self) -> EffectModel {
        match self {
            Effect::Nothing => EffectModel::Nothing,
            Effect::OpenWindow => EffectModel::OpenWindow,
            Effect::Connect { tab, pane, kind, target } => EffectModel::Connect {
                tab: *tab,
                pane: *pane,
                kind: kind@,
                target: crate::text::optional(*target),
            },
            Effect::Reconnect { tab, pane, kind, target } => EffectModel::Reconnect {
                tab: *tab,
                pane: *pane,
                kind: kind@,
                target: crate::text::optional(*target),
            },
            Effect::Login { tab, pane, profile, address } => EffectModel::Login {
                tab: *tab,
                pane: *pane,
                profile: profile@,
                address: address@,
            },
            Effect::SplitSession { axis, kind, remote } => EffectModel::SplitSession {
                axis: *axis,
                kind: kind@,
                remote: *remote,
            },
            Effect::Exchange { tab, pane, kind } => EffectModel::Exchange {
                tab: *tab,
                pane: *pane,
                kind: kind@,
            },
            Effect::Detach { tab, pane, note } => EffectModel::Detach {
                tab: *tab,
                pane: *pane,
                note: note@,
            },
            Effect::CheckUpdates => EffectModel::CheckUpdates,
            Effect::ListPorts => EffectModel::ListPorts,
            Effect::OpenPicker => EffectModel::OpenPicker,
            Effect::Persist => EffectModel::Persist,
            Effect::OpenPortOwner(port) => EffectModel::OpenPortOwner(port@),
            Effect::OpenToolbox(p) => EffectModel::OpenToolbox(p@),
            Effect::OpenFiles => EffectModel::OpenFiles,
        }
    }
}

/// Which protocol the connection form is editing.
#[derive(Clone, Copy, Debug, PartialEq, Eq, Structural)]
pub enum ProfileKind {
    Ssh,
    Serial,
}

/// The connection form.
#[derive(Debug)]
pub struct Form {
    pub open: bool,
    pub kind: ProfileKind,
    pub remote: RemoteProfile,
    pub serial: SerialProfile,
    /// The saved SSH connection that is edited.
    pub editing_profile: Option<usize>,
    /// The saved serial connection that is edited.
    pub editing_serial: Option<usize>,
}

/// What the connection form holds.
#[verifier::ext_equal]
pub struct FormModel {
    pub open: bool,
    pub kind: ProfileKind,
    pub remote: RemoteModel,
    pub serial: SerialModel,
    pub editing_profile: Option<usize>,
    pub editing_serial: Option<usize>,
}

impl View for Form {
    type V = FormModel;

    open spec fn view(&self) -> FormModel {
        FormModel {
            open: self.open,
            kind: self.kind,
            remote: self.remote@,
            serial: self.serial@,
            editing_profile: self.editing_profile,
            editing_serial: self.editing_serial,
        }
    }
}

/// The search through a pane's history. A hit is how far back its line is, and
/// its row.
#[derive(Debug)]
pub struct Search {
    pub open: bool,
    /// The search field is about to get the keyboard.
    pub focus: bool,
    pub hits: Vec<(usize, u16)>,
    pub index: usize,
}

/// What the search holds.
#[verifier::ext_equal]
pub struct SearchModel {
    pub open: bool,
    pub focus: bool,
    pub hits: Seq<(usize, u16)>,
    pub index: usize,
}

impl View for Search {
    type V = SearchModel;

    open spec fn view(&self) -> SearchModel {
        SearchModel {
            open: self.open,
            focus: self.focus,
            hits: self.hits@,
            index: self.index,
        }
    }
}

/// Which windows are open over the tabs.
#[derive(Clone, Copy, Debug, PartialEq, Eq, Structural)]
pub struct Windows {
    pub settings: bool,
    pub groups: bool,
    pub help: bool,
    pub update: bool,
    pub login: bool,
    pub files: bool,
    pub toolbox: bool,
}

/// The terminal.
#[derive(Debug)]
pub struct App {
    pub settings: Settings,
    pub workspace: Workspace,
    pub form: Form,
    pub search: Search,
    pub windows: Windows,
    /// The pane, by the numbers of its tab and itself, that a login is for.
    pub login_target: Option<(u64, u64)>,
    /// The pane of a fresh split whose session can still be chosen.
    pub split_chooser: Option<(u64, u64)>,
    /// What went wrong last.
    pub error: Option<String>,
    /// A short message for the status bar.
    pub notice: Option<String>,
    /// In auto-hide mode, whether the navigation bar has been pinned open.
    pub sidebar_pinned: bool,
    /// The exit confirmation is on screen.
    pub confirm_exit: bool,
    /// The user has already agreed to close with sessions open.
    pub exit_confirmed: bool,
}

/// What the terminal holds.
#[verifier::ext_equal]
pub struct AppModel {
    pub settings: SettingsModel,
    pub workspace: WorkspaceModel,
    pub form: FormModel,
    pub search: SearchModel,
    pub windows: Windows,
    pub login_target: Option<(u64, u64)>,
    pub split_chooser: Option<(u64, u64)>,
    pub error: Option<Seq<char>>,
    pub notice: Option<Seq<char>>,
    pub sidebar_pinned: bool,
    pub confirm_exit: bool,
    pub exit_confirmed: bool,
}

impl View for App {
    type V = AppModel;

    open spec fn view(&self) -> AppModel {
        AppModel {
            settings: self.settings@,
            workspace: self.workspace@,
            form: self.form@,
            search: self.search@,
            windows: self.windows,
            login_target: self.login_target,
            split_chooser: self.split_chooser,
            error: crate::text::optional(self.error),
            notice: crate::text::optional(self.notice),
            sidebar_pinned: self.sidebar_pinned,
            confirm_exit: self.confirm_exit,
            exit_confirmed: self.exit_confirmed,
        }
    }
}

/// The models of the terminal, its form and its search hold each of their fields.
pub proof fn law_models_hold_the_terminal(app: App)
    ensures
        app@.settings == app.settings@ && app@.workspace == app.workspace@,
        app@.windows == app.windows && app@.login_target == app.login_target,
        app@.split_chooser == app.split_chooser && app@.sidebar_pinned == app.sidebar_pinned,
        app@.confirm_exit == app.confirm_exit && app@.exit_confirmed == app.exit_confirmed,
        app.error is None ==> app@.error is None,
        app.error matches Some(text) ==> app@.error == Some(text@),
        app.notice is None ==> app@.notice is None,
        app.notice matches Some(text) ==> app@.notice == Some(text@),
        app@.form.open == app.form.open && app@.form.kind == app.form.kind,
        app@.form.remote == app.form.remote@ && app@.form.serial == app.form.serial@,
        app@.form.editing_profile == app.form.editing_profile,
        app@.form.editing_serial == app.form.editing_serial,
        app@.search.open == app.search.open && app@.search.focus == app.search.focus,
        app@.search.hits == app.search.hits@ && app@.search.index == app.search.index,
{
}

/// The model of an action is the same action on the same things.
pub proof fn law_models_hold_the_action(
    i: usize,
    axis: Axis,
    kind: SessionKind,
    port: String,
    p: RemoteProfile,
)
    ensures
        Action::New(kind)@ == ActionModel::New(kind@),
        Action::NewWindow@ is NewWindow,
        Action::DuplicateSession(i)@ == ActionModel::DuplicateSession(i),
        Action::Split(axis)@ == ActionModel::Split(axis),
        Action::CloseTab(i)@ == ActionModel::CloseTab(i),
        Action::CloseOtherTabs(i)@ == ActionModel::CloseOtherTabs(i),
        Action::CloseDisconnectedTabs@ is CloseDisconnectedTabs,
        Action::CheckUpdates@ is CheckUpdates,
        Action::ClosePane@ is ClosePane,
        Action::Restart@ is Restart,
        Action::Disconnect@ is Disconnect,
        Action::Remote@ is Remote,
        Action::Edit(i)@ == ActionModel::Edit(i),
        Action::Remove(i)@ == ActionModel::Remove(i),
        Action::Duplicate(i)@ == ActionModel::Duplicate(i),
        Action::DuplicateSerial(i)@ == ActionModel::DuplicateSerial(i),
        Action::SerialPicker@ is SerialPicker,
        Action::FindPortOwner(port)@ == ActionModel::FindPortOwner(port@),
        Action::EditSerial(i)@ == ActionModel::EditSerial(i),
        Action::RemoveSerial(i)@ == ActionModel::RemoveSerial(i),
        Action::AdoptSshConfig(p)@ == ActionModel::AdoptSshConfig(p@),
        Action::Toolbox@ is Toolbox,
        Action::Files@ is Files,
{
}

/// The model of what is asked for is the same request for the same things.
pub proof fn law_models_hold_the_effect(e: Effect)
    ensures
        e is Nothing <==> e@ is Nothing,
        e is OpenWindow <==> e@ is OpenWindow,
        e is CheckUpdates <==> e@ is CheckUpdates,
        e is ListPorts <==> e@ is ListPorts,
        e is OpenPicker <==> e@ is OpenPicker,
        e is Persist <==> e@ is Persist,
        e is OpenFiles <==> e@ is OpenFiles,
        e matches Effect::Connect { tab, pane, kind, target } ==> (e@ matches EffectModel::Connect {
            tab: t,
            pane: q,
            kind: k,
            target: at,
        } && t == tab && q == pane && k == kind@ && (target is Some <==> at is Some) && (
        target is Some ==> at->0 == target->0@)),
        e matches Effect::Reconnect { tab, pane, kind, target } ==> (
        e@ matches EffectModel::Reconnect { tab: t, pane: q, kind: k, target: at } && t == tab && q
            == pane && k == kind@ && (target is Some <==> at is Some) && (target is Some ==> at->0
            == target->0@)),
        e matches Effect::Login { tab, pane, profile, address } ==> e@ == (EffectModel::Login {
            tab,
            pane,
            profile: profile@,
            address: address@,
        }),
        e matches Effect::SplitSession { axis, kind, remote } ==> e@ == (
        EffectModel::SplitSession { axis, kind: kind@, remote }),
        e matches Effect::Exchange { tab, pane, kind } ==> e@ == (EffectModel::Exchange {
            tab,
            pane,
            kind: kind@,
        }),
        e matches Effect::Detach { tab, pane, note } ==> e@ == (EffectModel::Detach {
            tab,
            pane,
            note: note@,
        }),
        e matches Effect::OpenPortOwner(port) ==> e@ == EffectModel::OpenPortOwner(port@),
        e matches Effect::OpenToolbox(p) ==> e@ == EffectModel::OpenToolbox(p@),
{
}

} // verus!
