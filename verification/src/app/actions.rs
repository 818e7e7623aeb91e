//! What each action does.

use crate::app::{
    Action, ActionModel, App, AppModel, Effect, EffectModel, Form, FormModel, ProfileKind,
    SearchModel, Windows,
};
use crate::config::connections::{remote_copy, serial_copy};
use crate::config::profile::{
    default_remote, default_serial, profile_error, remote_label, text_copy, RemoteModel,
    RemoteProfile, SerialProfile,
};
use crate::config::settings::SettingsModel;
use crate::layout::Axis;
use crate::session::{address, address_of, connect_target, target, KindModel, SessionKind};
use crate::workspace::panes::{
    law_a_pane_is_found_where_it_is, law_connections_keep_order, ssh_target,
};
use crate::workspace::saved::saved_tabs;
use crate::workspace::{detached_pane, live_pane, pending_pane, WorkspaceModel};
use vstd::prelude::*;

verus! {

/// How a key with Alt is written: a Mac calls the key Option.
pub open spec fn alt_text(key: Seq<char>, macos: bool) -> Seq<char> {
    (if macos {
        "Option+"@
    } else {
        "Alt+"@
    }) + key
}

/// How a key with Alt is written: a Mac calls the key Option.
pub fn alt_accel(key: &str, macos: bool) -> (out: String)
    ensures
        out@ == alt_text(key@, macos),
{
    let mut out = String::new();
    out.append(
        if macos {
            "Option+"
        } else {
            "Alt+"
        },
    );
    out.append(key);
    assert(out@ =~= alt_text(key@, macos));
    out
}

/// The note in the console of a session that the user ended.
pub open spec fn detached_note(macos: bool) -> Seq<char> {
    "已断开（"@ + alt_text("R"@, macos) + " 重连）"@
}

/// What the toolbox says where the focused session is no live SSH session.
pub open spec fn toolbox_refusal() -> Seq<char> {
    "服务器工具箱仅用于已连接的 SSH 会话"@
}

impl AppModel {
    /// Whether the open tabs are in order.
    pub open spec fn well_formed(self) -> bool {
        self.workspace.well_formed()
    }

    /// The terminal with another workspace.
    pub open spec fn with_workspace(self, workspace: WorkspaceModel) -> AppModel {
        AppModel { workspace, ..self }
    }

    /// The terminal with other settings.
    pub open spec fn with_settings(self, settings: SettingsModel) -> AppModel {
        AppModel { settings, ..self }
    }

    /// Whether the action can be asked for: what it names exists, and there is
    /// room for what it adds.
    pub open spec fn offers(self, action: ActionModel) -> bool {
        &&& self.workspace.next_id < u64::MAX
        &&& self.workspace.tabs.len() < usize::MAX
        &&& self.settings.profiles.len() < usize::MAX
        &&& self.settings.serial_profiles.len() < usize::MAX
        &&& match action {
            ActionModel::Edit(i) => i < self.settings.profiles.len(),
            ActionModel::Remove(i) => i < self.settings.profiles.len(),
            ActionModel::EditSerial(i) => i < self.settings.serial_profiles.len(),
            ActionModel::RemoveSerial(i) => i < self.settings.serial_profiles.len(),
            _ => true,
        }
    }

    /// The terminal with a tab for a session that is to be connected. A host
    /// needs a login first, which is remembered for the new pane.
    pub open spec fn opened(self, kind: KindModel) -> AppModel {
        let id = (self.workspace.next_id + 1) as u64;
        let next = self.with_workspace(self.workspace.with_tab(pending_pane(id, kind)));
        if kind is Ssh || kind is Sftp {
            AppModel {
                login_target: Some((id, id)),
                windows: Windows { login: true, ..self.windows },
                ..next
            }
        } else {
            next
        }
    }

    /// The terminal once the action was done, but for the search hits.
    pub open spec fn acted(self, action: ActionModel) -> AppModel {
        let w = self.workspace;
        let s = self.settings;
        match action {
            ActionModel::New(kind) => self.opened(kind),
            ActionModel::DuplicateSession(i) => if i < w.tabs.len() {
                self.opened(w.tabs[i as int].current().kind)
            } else {
                self
            },
            ActionModel::CloseTab(i) => self.with_workspace(w.without_tab(i as int)),
            ActionModel::CloseOtherTabs(i) => self.with_workspace(w.only_tab(i as int)),
            ActionModel::CloseDisconnectedTabs => self.with_workspace(w.without_ended()),
            ActionModel::ClosePane => self.with_workspace(w.without_pane()),
            ActionModel::CheckUpdates => AppModel {
                windows: Windows { update: true, ..self.windows },
                ..self
            },
            ActionModel::Restart => match w.current() {
                Some(pane) => {
                    let tab = w.tabs[w.active as int].id;
                    if pane.kind is Ssh || pane.kind is Sftp {
                        AppModel {
                            login_target: Some((tab, pane.id)),
                            windows: Windows { login: true, ..self.windows },
                            ..self
                        }
                    } else {
                        self.with_workspace(w.dropped(tab, pane.id))
                    }
                },
                None => self,
            },
            ActionModel::Disconnect => match w.current() {
                Some(pane) => if pane.pending {
                    self
                } else {
                    self.with_workspace(w.dropped(w.tabs[w.active as int].id, pane.id))
                },
                None => self,
            },
            ActionModel::Remote => AppModel {
                form: FormModel {
                    open: true,
                    kind: ProfileKind::Ssh,
                    remote: default_remote(),
                    serial: default_serial(),
                    editing_profile: None,
                    editing_serial: None,
                },
                ..self
            },
            ActionModel::Edit(i) => AppModel {
                form: FormModel {
                    open: true,
                    kind: ProfileKind::Ssh,
                    remote: s.profiles[i as int],
                    editing_profile: Some(i),
                    editing_serial: None,
                    ..self.form
                },
                ..self
            },
            ActionModel::EditSerial(i) => AppModel {
                form: FormModel {
                    open: true,
                    kind: ProfileKind::Serial,
                    serial: s.serial_profiles[i as int],
                    editing_profile: None,
                    editing_serial: Some(i),
                    ..self.form
                },
                ..self
            },
            ActionModel::Remove(i) => self.with_settings(
                SettingsModel { profiles: s.profiles.remove(i as int), ..s },
            ),
            ActionModel::RemoveSerial(i) => self.with_settings(
                SettingsModel { serial_profiles: s.serial_profiles.remove(i as int), ..s },
            ),
            ActionModel::Duplicate(i) => if i < s.profiles.len() {
                self.with_settings(
                    SettingsModel {
                        profiles: s.profiles.push(remote_copy(s.profiles, i as int)),
                        ..s
                    },
                )
            } else {
                self
            },
            ActionModel::DuplicateSerial(i) => if i < s.serial_profiles.len() {
                self.with_settings(
                    SettingsModel {
                        serial_profiles: s.serial_profiles.push(
                            serial_copy(s.serial_profiles, i as int),
                        ),
                        ..s
                    },
                )
            } else {
                self
            },
            ActionModel::AdoptSshConfig(p) => match profile_error(p) {
                None => AppModel {
                    settings: SettingsModel { profiles: s.profiles.push(p), ..s },
                    notice: Some("已保存连接 "@ + remote_label(p)),
                    ..self
                },
                Some(e) => AppModel { error: Some(e.text()), ..self },
            },
            ActionModel::Toolbox => if w.current() is Some && ssh_target(
                w.current()->0,
            ) is Some {
                AppModel { windows: Windows { toolbox: true, ..self.windows }, ..self }
            } else {
                AppModel { error: Some(toolbox_refusal()), ..self }
            },
            ActionModel::NewWindow | ActionModel::Split(_) | ActionModel::SerialPicker
            | ActionModel::FindPortOwner(_) | ActionModel::Files => self,
        }
    }

    /// Whether the action changes what is saved.
    pub open spec fn persists(self, action: ActionModel) -> bool {
        self.effect(action, false) is Persist
    }

    /// The terminal with what is open in its settings.
    pub open spec fn kept(self) -> AppModel {
        self.with_settings(
            SettingsModel { workspace: saved_tabs(self.workspace), ..self.settings },
        )
    }

    /// The terminal once the action was done. Where the settings are to be saved,
    /// what is open is put into them. The hits of a search are of no use after it.
    pub open spec fn executed(self, action: ActionModel) -> AppModel {
        self.acted(action).settled(self.persists(action))
    }

    /// The terminal after any action: with what is open in its settings, where
    /// they are to be saved, and without the hits of a search.
    pub open spec fn settled(self, persists: bool) -> AppModel {
        let next = if persists {
            self.kept()
        } else {
            self
        };
        AppModel { search: SearchModel { hits: Seq::empty(), ..next.search }, ..next }
    }

    /// What opening a session asks for.
    pub open spec fn opening(self, kind: KindModel) -> EffectModel {
        let id = (self.workspace.next_id + 1) as u64;
        match kind {
            KindModel::Ssh(p) => EffectModel::Login {
                tab: id,
                pane: id,
                profile: p,
                address: address(p),
            },
            KindModel::Sftp(p) => EffectModel::Login {
                tab: id,
                pane: id,
                profile: p,
                address: address(p),
            },
            _ => EffectModel::Connect { tab: id, pane: id, kind, target: target(kind) },
        }
    }

    /// What the action asks the caller to do.
    pub open spec fn effect(self, action: ActionModel, macos: bool) -> EffectModel {
        let w = self.workspace;
        let s = self.settings;
        match action {
            ActionModel::New(kind) => self.opening(kind),
            ActionModel::DuplicateSession(i) => if i < w.tabs.len() {
                self.opening(w.tabs[i as int].current().kind)
            } else {
                EffectModel::Nothing
            },
            ActionModel::NewWindow => EffectModel::OpenWindow,
            ActionModel::Split(axis) => if w.can_split() {
                let pane = w.tabs[w.active as int].current();
                if pane.remote {
                    EffectModel::SplitSession { axis, kind: pane.kind, remote: true }
                } else {
                    EffectModel::SplitSession {
                        axis,
                        kind: KindModel::Local(s.default_shell),
                        remote: false,
                    }
                }
            } else {
                EffectModel::Nothing
            },
            ActionModel::CheckUpdates => EffectModel::CheckUpdates,
            ActionModel::Restart => match w.current() {
                Some(pane) => {
                    let tab = w.tabs[w.active as int].id;
                    match pane.kind {
                        KindModel::Ssh(p) => EffectModel::Login {
                            tab,
                            pane: pane.id,
                            profile: p,
                            address: address(p),
                        },
                        KindModel::Sftp(p) => EffectModel::Login {
                            tab,
                            pane: pane.id,
                            profile: p,
                            address: address(p),
                        },
                        kind => EffectModel::Reconnect {
                            tab,
                            pane: pane.id,
                            kind,
                            target: target(kind),
                        },
                    }
                },
                None => EffectModel::Nothing,
            },
            ActionModel::Disconnect => match w.current() {
                Some(pane) => if pane.pending {
                    EffectModel::Nothing
                } else {
                    EffectModel::Detach {
                        tab: w.tabs[w.active as int].id,
                        pane: pane.id,
                        note: detached_note(macos),
                    }
                },
                None => EffectModel::Nothing,
            },
            ActionModel::Remote => EffectModel::ListPorts,
            ActionModel::EditSerial(_) => EffectModel::ListPorts,
            ActionModel::Remove(_) => EffectModel::Persist,
            ActionModel::RemoveSerial(_) => EffectModel::Persist,
            ActionModel::Duplicate(i) => if i < s.profiles.len() {
                EffectModel::Persist
            } else {
                EffectModel::Nothing
            },
            ActionModel::DuplicateSerial(i) => if i < s.serial_profiles.len() {
                EffectModel::Persist
            } else {
                EffectModel::Nothing
            },
            ActionModel::AdoptSshConfig(p) => if profile_error(p) is None {
                EffectModel::Persist
            } else {
                EffectModel::Nothing
            },
            ActionModel::SerialPicker => EffectModel::OpenPicker,
            ActionModel::FindPortOwner(port) => EffectModel::OpenPortOwner(port),
            ActionModel::Toolbox => if w.current() is Some {
                match ssh_target(w.current()->0) {
                    Some((p, _)) => EffectModel::OpenToolbox(p),
                    None => EffectModel::Nothing,
                }
            } else {
                EffectModel::Nothing
            },
            ActionModel::Files => EffectModel::OpenFiles,
            ActionModel::CloseTab(_) | ActionModel::CloseOtherTabs(_)
            | ActionModel::CloseDisconnectedTabs | ActionModel::ClosePane
            | ActionModel::Edit(_) => EffectModel::Nothing,
        }
    }
}

/// What doing an action comes to.
#[verifier::opaque]
spec fn follows(
    before: AppModel,
    action: ActionModel,
    macos: bool,
    after: AppModel,
    effect: EffectModel,
) -> bool {
    &&& after == before.acted(action)
    &&& after.well_formed()
    &&& effect == before.effect(action, macos)
}

/// What doing an action comes to, and whether the settings are to be saved.
proof fn lemma_follows(
    before: AppModel,
    action: ActionModel,
    macos: bool,
    after: AppModel,
    effect: EffectModel,
)
    requires
        follows(before, action, macos, after, effect),
    ensures
        after == before.acted(action),
        after.well_formed(),
        effect == before.effect(action, macos),
        before.persists(action) == (effect is Persist),
{
    reveal(follows);
}

impl App {
    /// Opens a tab for a session, before its connection is attempted.
    pub(crate) fn open(&mut self, kind: SessionKind) -> (effect: Effect)
        requires
            old(self)@.well_formed(),
            old(self)@.workspace.next_id < u64::MAX,
            old(self)@.workspace.tabs.len() < usize::MAX,
        ensures
            final(self)@ == old(self)@.opened(kind@),
            final(self)@.well_formed(),
            effect@ == old(self)@.opening(kind@),
    {
        let ghost before = self@;
        let (tab, pane) = self.workspace.open_connecting_tab(kind.clone());
        let effect = match kind {
            SessionKind::Ssh(p) => {
                self.login_target = Some((tab, pane));
                self.windows.login = true;
                let address: String = address_of(&p);
                Effect::Login { tab, pane, profile: p, address }
            },
            SessionKind::Sftp(p) => {
                self.login_target = Some((tab, pane));
                self.windows.login = true;
                let address: String = address_of(&p);
                Effect::Login { tab, pane, profile: p, address }
            },
            kind => {
                let target: Option<String> = connect_target(&kind);
                Effect::Connect { tab, pane, kind, target }
            },
        };
        assert(self@ =~= before.opened(kind@));
        effect
    }

    /// Starts the focused session anew.
    fn restart(&mut self) -> (effect: Effect)
        requires
            old(self)@.well_formed(),
        ensures
            forall|macos: bool| #[trigger]
                follows(old(self)@, ActionModel::Restart, macos, final(self)@, effect@),
    {
        proof {
            reveal(follows);
        }
        let ghost before = self@;
        let active: usize = self.workspace.active;
        if active >= self.workspace.tabs.len() {
            return Effect::Nothing;
        }
        let tab: u64 = self.workspace.tabs[active].id;
        let focused: usize = self.workspace.tabs[active].focused;
        proof {
            assert(before.workspace.tabs[active as int].well_formed());
            assert(before.workspace.current() == Some(
                self.workspace.tabs@[active as int].panes@[focused as int]@,
            ));
        }
        let pane: u64 = self.workspace.tabs[active].panes[focused].id;
        let kind: SessionKind = self.workspace.tabs[active].panes[focused].kind.clone();
        let effect = match kind {
            SessionKind::Ssh(p) => {
                self.login_target = Some((tab, pane));
                self.windows.login = true;
                let address: String = address_of(&p);
                Effect::Login { tab, pane, profile: p, address }
            },
            SessionKind::Sftp(p) => {
                self.login_target = Some((tab, pane));
                self.windows.login = true;
                let address: String = address_of(&p);
                Effect::Login { tab, pane, profile: p, address }
            },
            kind => {
                self.workspace.drop_session(tab, pane);
                let target: Option<String> = connect_target(&kind);
                Effect::Reconnect { tab, pane, kind, target }
            },
        };
        assert(self@ =~= before.acted(ActionModel::Restart));
        effect
    }

    /// Ends the focused session and keeps its pane.
    fn disconnect(&mut self, macos: bool) -> (effect: Effect)
        requires
            old(self)@.well_formed(),
        ensures
            follows(old(self)@, ActionModel::Disconnect, macos, final(self)@, effect@),
    {
        proof {
            reveal(follows);
        }
        let ghost before = self@;
        let active: usize = self.workspace.active;
        if active >= self.workspace.tabs.len() {
            return Effect::Nothing;
        }
        let tab: u64 = self.workspace.tabs[active].id;
        let focused: usize = self.workspace.tabs[active].focused;
        proof {
            assert(before.workspace.tabs[active as int].well_formed());
            assert(before.workspace.current() == Some(
                self.workspace.tabs@[active as int].panes@[focused as int]@,
            ));
        }
        let pane: u64 = self.workspace.tabs[active].panes[focused].id;
        if self.workspace.tabs[active].panes[focused].pending {
            return Effect::Nothing;
        }
        self.workspace.drop_session(tab, pane);
        let mut note = text_copy("已断开（");
        let accel: String = alt_accel("R", macos);
        note.append(accel.as_str());
        note.append(" 重连）");
        assert(note@ =~= detached_note(macos));
        assert(self@ =~= before.acted(ActionModel::Disconnect));
        Effect::Detach { tab, pane, note }
    }

    /// What a split of the focused pane needs.
    fn plan_split(&self, axis: Axis) -> (effect: Effect)
        requires
            self@.well_formed(),
        ensures
            forall|macos: bool| #[trigger]
                follows(self@, ActionModel::Split(axis), macos, self@, effect@),
    {
        proof {
            reveal(follows);
        }
        if !self.workspace.has_room() {
            return Effect::Nothing;
        }
        let active: usize = self.workspace.active;
        let focused: usize = self.workspace.tabs[active].focused;
        assert(self@.workspace.tabs[active as int].well_formed());
        let ghost pane = self@.workspace.tabs[active as int].current();
        assert(pane == self.workspace.tabs@[active as int].panes@[focused as int]@);
        if self.workspace.tabs[active].panes[focused].remote {
            Effect::SplitSession {
                axis,
                kind: self.workspace.tabs[active].panes[focused].kind.clone(),
                remote: true,
            }
        } else {
            Effect::SplitSession {
                axis,
                kind: SessionKind::Local(self.settings.default_shell.clone()),
                remote: false,
            }
        }
    }

    /// Opens the connection form for a new connection.
    fn new_form(&mut self) -> (effect: Effect)
        requires
            old(self)@.well_formed(),
        ensures
            forall|macos: bool| #[trigger]
                follows(old(self)@, ActionModel::Remote, macos, final(self)@, effect@),
    {
        proof {
            reveal(follows);
        }
        self.form = Form {
            open: true,
            kind: ProfileKind::Ssh,
            remote: RemoteProfile::default(),
            serial: SerialProfile::default(),
            editing_profile: None,
            editing_serial: None,
        };
        assert(self@ =~= old(self)@.acted(ActionModel::Remote));
        Effect::ListPorts
    }

    /// Keeps an imported host.
    fn adopt(&mut self, p: RemoteProfile) -> (effect: Effect)
        requires
            old(self)@.well_formed(),
            old(self)@.settings.profiles.len() < usize::MAX,
        ensures
            forall|macos: bool| #[trigger]
                follows(old(self)@, ActionModel::AdoptSshConfig(p@), macos, final(self)@, effect@),
    {
        proof {
            reveal(follows);
        }
        let ghost before = self@;
        match self.settings.store_profile(&p, None) {
            Ok(()) => {
                let mut text = text_copy("已保存连接 ");
                let label: String = p.label();
                text.append(label.as_str());
                self.notice = Some(text);
                assert(self@ =~= before.acted(ActionModel::AdoptSshConfig(p@)));
                Effect::Persist
            },
            Err(e) => {
                self.error = Some(e.message());
                assert(self@ =~= before.acted(ActionModel::AdoptSshConfig(p@)));
                Effect::Nothing
            },
        }
    }

    /// Opens the toolbox, where the focused session is a live SSH session.
    fn open_toolbox(&mut self) -> (effect: Effect)
        requires
            old(self)@.well_formed(),
        ensures
            forall|macos: bool| #[trigger]
                follows(old(self)@, ActionModel::Toolbox, macos, final(self)@, effect@),
    {
        proof {
            reveal(follows);
        }
        let ghost before = self@;
        match self.workspace.focused_ssh() {
            Some((p, _)) => {
                self.windows.toolbox = true;
                assert(self@ =~= before.acted(ActionModel::Toolbox));
                Effect::OpenToolbox(p)
            },
            None => {
                self.error = Some(text_copy("服务器工具箱仅用于已连接的 SSH 会话"));
                assert(self@ =~= before.acted(ActionModel::Toolbox));
                Effect::Nothing
            },
        }
    }

    /// Does the action, and says what the caller has to do.
    pub fn execute(&mut self, action: Action, macos: bool) -> (effect: Effect)
        requires
            old(self)@.well_formed(),
            old(self)@.offers(action@),
        ensures
            final(self)@ == old(self)@.executed(action@),
            final(self)@.well_formed(),
            effect@ == old(self)@.effect(action@, macos),
    {
        let ghost before = self@;
        let ghost asked = action@;
        let effect = self.perform(action, macos);
        let persists = match &effect {
            Effect::Persist => true,
            _ => false,
        };
        proof {
            lemma_follows(before, asked, macos, self@, effect@);
        }
        self.settle(persists);
        effect
    }

    /// What every action ends with.
    fn settle(&mut self, persists: bool)
        ensures
            final(self)@ == old(self)@.settled(persists),
    {
        if persists {
            self.keep_tabs();
        }
        self.search.hits = Vec::new();
        assert(self@ =~= old(self)@.settled(persists));
    }

    /// Opens one more tab with the session of another.
    fn open_again(&mut self, i: usize) -> (effect: Effect)
        requires
            old(self)@.well_formed(),
            old(self)@.workspace.next_id < u64::MAX,
            old(self)@.workspace.tabs.len() < usize::MAX,
        ensures
            forall|macos: bool| #[trigger]
                follows(old(self)@, ActionModel::DuplicateSession(i), macos, final(self)@, effect@),
    {
        proof {
            reveal(follows);
        }
        if i < self.workspace.tabs.len() {
            let focused: usize = self.workspace.tabs[i].focused;
            assert(self@.workspace.tabs[i as int].well_formed());
            assert(self@.workspace.tabs[i as int].current()
                == self.workspace.tabs@[i as int].panes@[focused as int]@);
            let kind: SessionKind = self.workspace.tabs[i].panes[focused].kind.clone();
            self.open(kind)
        } else {
            Effect::Nothing
        }
    }

    /// Closes a tab.
    fn close_tab(&mut self, i: usize) -> (effect: Effect)
        requires
            old(self)@.well_formed(),
        ensures
            forall|macos: bool| #[trigger]
                follows(old(self)@, ActionModel::CloseTab(i), macos, final(self)@, effect@),
    {
        proof {
            reveal(follows);
        }
        self.workspace.close_tab(i);
        assert(self@ =~= old(self)@.acted(ActionModel::CloseTab(i)));
        Effect::Nothing
    }

    /// Closes every other tab.
    fn close_other_tabs(&mut self, i: usize) -> (effect: Effect)
        requires
            old(self)@.well_formed(),
        ensures
            forall|macos: bool| #[trigger]
                follows(old(self)@, ActionModel::CloseOtherTabs(i), macos, final(self)@, effect@),
    {
        proof {
            reveal(follows);
        }
        self.workspace.close_other_tabs(i);
        assert(self@ =~= old(self)@.acted(ActionModel::CloseOtherTabs(i)));
        Effect::Nothing
    }

    /// Closes the tabs that have ended.
    fn close_ended(&mut self) -> (effect: Effect)
        requires
            old(self)@.well_formed(),
        ensures
            forall|macos: bool| #[trigger]
                follows(old(self)@, ActionModel::CloseDisconnectedTabs, macos, final(self)@, effect@),
    {
        proof {
            reveal(follows);
        }
        self.workspace.close_disconnected_tabs();
        assert(self@ =~= old(self)@.acted(ActionModel::CloseDisconnectedTabs));
        Effect::Nothing
    }

    /// Closes the focused pane.
    fn close_pane(&mut self) -> (effect: Effect)
        requires
            old(self)@.well_formed(),
        ensures
            forall|macos: bool| #[trigger]
                follows(old(self)@, ActionModel::ClosePane, macos, final(self)@, effect@),
    {
        proof {
            reveal(follows);
        }
        self.workspace.close_pane();
        assert(self@ =~= old(self)@.acted(ActionModel::ClosePane));
        Effect::Nothing
    }

    /// Looks for a newer release.
    fn check_updates(&mut self) -> (effect: Effect)
        requires
            old(self)@.well_formed(),
        ensures
            forall|macos: bool| #[trigger]
                follows(old(self)@, ActionModel::CheckUpdates, macos, final(self)@, effect@),
    {
        proof {
            reveal(follows);
        }
        self.windows.update = true;
        assert(self@ =~= old(self)@.acted(ActionModel::CheckUpdates));
        Effect::CheckUpdates
    }

    /// Opens the form for a saved SSH connection.
    fn edit_profile(&mut self, i: usize) -> (effect: Effect)
        requires
            old(self)@.well_formed(),
            i < old(self)@.settings.profiles.len(),
        ensures
            forall|macos: bool| #[trigger]
                follows(old(self)@, ActionModel::Edit(i), macos, final(self)@, effect@),
    {
        proof {
            reveal(follows);
        }
        self.form.remote = self.settings.profiles[i].duplicate();
        self.form.kind = ProfileKind::Ssh;
        self.form.editing_profile = Some(i);
        self.form.editing_serial = None;
        self.form.open = true;
        assert(self@ =~= old(self)@.acted(ActionModel::Edit(i)));
        Effect::Nothing
    }

    /// Opens the form for a saved serial connection.
    fn edit_serial(&mut self, i: usize) -> (effect: Effect)
        requires
            old(self)@.well_formed(),
            i < old(self)@.settings.serial_profiles.len(),
        ensures
            forall|macos: bool| #[trigger]
                follows(old(self)@, ActionModel::EditSerial(i), macos, final(self)@, effect@),
    {
        proof {
            reveal(follows);
        }
        self.form.serial = self.settings.serial_profiles[i].duplicate();
        self.form.kind = ProfileKind::Serial;
        self.form.editing_serial = Some(i);
        self.form.editing_profile = None;
        self.form.open = true;
        assert(self@ =~= old(self)@.acted(ActionModel::EditSerial(i)));
        Effect::ListPorts
    }

    /// Removes a saved SSH connection.
    fn remove_profile(&mut self, i: usize) -> (effect: Effect)
        requires
            old(self)@.well_formed(),
            i < old(self)@.settings.profiles.len(),
        ensures
            forall|macos: bool| #[trigger]
                follows(old(self)@, ActionModel::Remove(i), macos, final(self)@, effect@),
    {
        proof {
            reveal(follows);
        }
        self.settings.remove_profile(i);
        assert(self@ =~= old(self)@.acted(ActionModel::Remove(i)));
        Effect::Persist
    }

    /// Removes a saved serial connection.
    fn remove_serial(&mut self, i: usize) -> (effect: Effect)
        requires
            old(self)@.well_formed(),
            i < old(self)@.settings.serial_profiles.len(),
        ensures
            forall|macos: bool| #[trigger]
                follows(old(self)@, ActionModel::RemoveSerial(i), macos, final(self)@, effect@),
    {
        proof {
            reveal(follows);
        }
        self.settings.remove_serial(i);
        assert(self@ =~= old(self)@.acted(ActionModel::RemoveSerial(i)));
        Effect::Persist
    }

    /// Copies a saved SSH connection.
    fn copy_profile(&mut self, i: usize) -> (effect: Effect)
        requires
            old(self)@.well_formed(),
            old(self)@.settings.profiles.len() < usize::MAX,
        ensures
            forall|macos: bool| #[trigger]
                follows(old(self)@, ActionModel::Duplicate(i), macos, final(self)@, effect@),
    {
        proof {
            reveal(follows);
        }
        let done = self.settings.duplicate_profile(i);
        assert(self@ =~= old(self)@.acted(ActionModel::Duplicate(i)));
        if done {
            Effect::Persist
        } else {
            Effect::Nothing
        }
    }

    /// Copies a saved serial connection.
    fn copy_serial(&mut self, i: usize) -> (effect: Effect)
        requires
            old(self)@.well_formed(),
            old(self)@.settings.serial_profiles.len() < usize::MAX,
        ensures
            forall|macos: bool| #[trigger]
                follows(old(self)@, ActionModel::DuplicateSerial(i), macos, final(self)@, effect@),
    {
        proof {
            reveal(follows);
        }
        let done = self.settings.duplicate_serial(i);
        assert(self@ =~= old(self)@.acted(ActionModel::DuplicateSerial(i)));
        if done {
            Effect::Persist
        } else {
            Effect::Nothing
        }
    }

    /// Opens a tab with a session.
    fn open_new(&mut self, kind: SessionKind) -> (effect: Effect)
        requires
            old(self)@.well_formed(),
            old(self)@.workspace.next_id < u64::MAX,
            old(self)@.workspace.tabs.len() < usize::MAX,
        ensures
            forall|macos: bool| #[trigger]
                follows(old(self)@, ActionModel::New(kind@), macos, final(self)@, effect@),
    {
        proof {
            reveal(follows);
        }
        self.open(kind)
    }

    /// Starts the program once more.
    fn new_window(&self) -> (effect: Effect)
        requires
            self@.well_formed(),
        ensures
            forall|macos: bool| #[trigger]
                follows(self@, ActionModel::NewWindow, macos, self@, effect@),
    {
        proof {
            reveal(follows);
        }
        Effect::OpenWindow
    }

    /// Opens the serial picker.
    fn open_picker(&self) -> (effect: Effect)
        requires
            self@.well_formed(),
        ensures
            forall|macos: bool| #[trigger]
                follows(self@, ActionModel::SerialPicker, macos, self@, effect@),
    {
        proof {
            reveal(follows);
        }
        Effect::OpenPicker
    }

    /// Looks for the program holding a port.
    fn find_port_owner(&self, port: String) -> (effect: Effect)
        requires
            self@.well_formed(),
        ensures
            forall|macos: bool| #[trigger]
                follows(self@, ActionModel::FindPortOwner(port@), macos, self@, effect@),
    {
        proof {
            reveal(follows);
        }
        Effect::OpenPortOwner(port)
    }

    /// Opens the file window.
    fn open_files(&self) -> (effect: Effect)
        requires
            self@.well_formed(),
        ensures
            forall|macos: bool| #[trigger]
                follows(self@, ActionModel::Files, macos, self@, effect@),
    {
        proof {
            reveal(follows);
        }
        Effect::OpenFiles
    }

    fn perform(&mut self, action: Action, macos: bool) -> (effect: Effect)
        requires
            old(self)@.well_formed(),
            old(self)@.offers(action@),
        ensures
            follows(old(self)@, action@, macos, final(self)@, effect@),
    {
        match action {
            Action::New(kind) => self.open_new(kind),
            Action::NewWindow => self.new_window(),
            Action::DuplicateSession(i) => self.open_again(i),
            Action::Split(axis) => self.plan_split(axis),
            Action::CloseTab(i) => self.close_tab(i),
            Action::CloseOtherTabs(i) => self.close_other_tabs(i),
            Action::CloseDisconnectedTabs => self.close_ended(),
            Action::CheckUpdates => self.check_updates(),
            Action::ClosePane => self.close_pane(),
            Action::Restart => self.restart(),
            Action::Disconnect => self.disconnect(macos),
            Action::Remote => self.new_form(),
            Action::Edit(i) => self.edit_profile(i),
            Action::Remove(i) => self.remove_profile(i),
            Action::Duplicate(i) => self.copy_profile(i),
            Action::DuplicateSerial(i) => self.copy_serial(i),
            Action::SerialPicker => self.open_picker(),
            Action::FindPortOwner(port) => self.find_port_owner(port),
            Action::EditSerial(i) => self.edit_serial(i),
            Action::RemoveSerial(i) => self.remove_serial(i),
            Action::AdoptSshConfig(p) => self.adopt(p),
            Action::Toolbox => self.open_toolbox(),
            Action::Files => self.open_files(),
        }
    }
}

/// Ending a session keeps its pane in its place, with what it can be connected to
/// again.
pub proof fn law_disconnecting_keeps_the_pane(app: AppModel)
    requires
        app.well_formed(),
        app.workspace.current() is Some,
    ensures
        ({
            let pane = app.workspace.current()->0;
            let after = app.executed(ActionModel::Disconnect).workspace;
            &&& after.tabs.len() == app.workspace.tabs.len()
            &&& after.active == app.workspace.active
            &&& after.tabs[after.active as int].id == app.workspace.tabs[after.active as int].id
            &&& after.current() == Some(
                if pane.pending {
                    pane
                } else {
                    detached_pane(pane.id, pane.kind)
                },
            )
        }),
{
    let w = app.workspace;
    let t = w.tabs[w.active as int];
    assert(t.well_formed());
    law_a_pane_is_found_where_it_is(w, w.active as int, t.focused as int);
}

/// A session that was ended can be brought back: starting it anew asks for what ran
/// there, and once that has started it is live, in the same pane and with the
/// keyboard.
#[verifier::rlimit(40)]
pub proof fn law_reconnecting_brings_the_session_back(app: AppModel, macos: bool)
    requires
        app.well_formed(),
        app.workspace.next_id < u64::MAX,
        app.workspace.tabs.len() < usize::MAX,
        app.workspace.current() matches Some(pane) && !pane.pending,
    ensures
        ({
            let pane = app.workspace.current()->0;
            let tab = app.workspace.tabs[app.workspace.active as int].id;
            let id = (app.workspace.next_id + 1) as u64;
            let off = app.executed(ActionModel::Disconnect);
            let asked = off.executed(ActionModel::Restart);
            match pane.kind {
                KindModel::Ssh(p) | KindModel::Sftp(p) => {
                    &&& off.effect(ActionModel::Restart, macos) == (EffectModel::Login {
                        tab,
                        pane: pane.id,
                        profile: p,
                        address: address(p),
                    })
                    &&& asked.workspace.connected(asked.login_target, pane.kind).current() == Some(
                        live_pane(id, pane.kind, true),
                    )
                },
                kind => {
                    &&& off.effect(ActionModel::Restart, macos) == (EffectModel::Reconnect {
                        tab,
                        pane: pane.id,
                        kind,
                        target: target(kind),
                    })
                    &&& asked.workspace.started(tab, pane.id, kind).current() == Some(
                        live_pane(id, kind, false),
                    )
                },
            }
        }),
{
    let w = app.workspace;
    let at = w.active as int;
    let pane = w.current()->0;
    let tab = w.tabs[at].id;
    assert(w.tabs[at].well_formed());
    law_disconnecting_keeps_the_pane(app);
    law_connections_keep_order(w, tab, pane.id, pane.kind);
    let off = app.executed(ActionModel::Disconnect);
    law_a_pane_is_found_where_it_is(w, at, w.tabs[at].focused as int);
    assert(off.workspace == w.dropped(tab, pane.id));
    assert(off.workspace.tabs[at].well_formed());
    law_a_pane_is_found_where_it_is(off.workspace, at, off.workspace.tabs[at].focused as int);
    let gone = off.workspace.dropped(tab, pane.id);
    law_connections_keep_order(off.workspace, tab, pane.id, pane.kind);
    assert(gone.tabs[at].well_formed());
    law_a_pane_is_found_where_it_is(gone, at, gone.tabs[at].focused as int);
}

/// Removing a copy leaves the saved connections as they were before it was made.
pub proof fn law_removing_undoes_copying(app: AppModel, i: usize, last: usize)
    requires
        i < app.settings.profiles.len(),
        last == app.settings.profiles.len(),
    ensures
        app.executed(ActionModel::Duplicate(i)).executed(
            ActionModel::Remove(last),
        ).settings.profiles == app.settings.profiles,
{
    let copy = remote_copy(app.settings.profiles, i as int);
    assert(app.settings.profiles.push(copy).remove(last as int) =~= app.settings.profiles);
}

/// A new session gets a tab of its own behind the others, with a new number for the tab
/// and its pane, and waits there. A host is logged in to first; anything else connects at
/// once.
pub proof fn law_what_a_new_session_does(app: AppModel, kind: KindModel, macos: bool)
    requires
        app.workspace.next_id < u64::MAX,
    ensures
        ({
            let id = (app.workspace.next_id + 1) as u64;
            let after = app.executed(ActionModel::New(kind));
            let effect = app.effect(ActionModel::New(kind), macos);
            &&& after.workspace == app.workspace.with_tab(pending_pane(id, kind))
            &&& after.settings == app.settings && after.form == app.form
            &&& match kind {
                KindModel::Ssh(p) | KindModel::Sftp(p) => {
                    &&& after.login_target == Some((id, id))
                    &&& after.windows == (Windows { login: true, ..app.windows })
                    &&& effect == (EffectModel::Login {
                        tab: id,
                        pane: id,
                        profile: p,
                        address: address(p),
                    })
                },
                _ => {
                    &&& after.login_target == app.login_target
                    &&& after.windows == app.windows
                    &&& effect == (EffectModel::Connect {
                        tab: id,
                        pane: id,
                        kind,
                        target: target(kind),
                    })
                },
            }
        }),
{
}

/// Duplicating a tab opens what its focused pane holds, as if it had been asked for anew.
pub proof fn law_a_duplicate_is_a_new_session(app: AppModel, i: usize, macos: bool)
    requires
        i < app.workspace.tabs.len(),
        app.workspace.tabs[i as int].focused < app.workspace.tabs[i as int].panes.len(),
    ensures
        ({
            let t = app.workspace.tabs[i as int];
            let kind = t.panes[t.focused as int].kind;
            &&& app.executed(ActionModel::DuplicateSession(i)) == app.executed(
                ActionModel::New(kind),
            )
            &&& app.effect(ActionModel::DuplicateSession(i), macos) == app.effect(
                ActionModel::New(kind),
                macos,
            )
        }),
{
}

/// Looking for updates opens their window, and the toolbox opens for a pane that is
/// connected to a host. Elsewhere it is refused, and stays closed.
pub proof fn law_the_windows_that_actions_open(app: AppModel, macos: bool)
    ensures
        app.executed(ActionModel::CheckUpdates).windows == (Windows {
            update: true,
            ..app.windows
        }),
        app.executed(ActionModel::CheckUpdates).workspace == app.workspace,
        app.effect(ActionModel::CheckUpdates, macos) is CheckUpdates,
        ({
            let after = app.executed(ActionModel::Toolbox);
            let effect = app.effect(ActionModel::Toolbox, macos);
            let host = match app.workspace.current() {
                Some(pane) => ssh_target(pane),
                None => None,
            };
            &&& after.workspace == app.workspace && after.settings == app.settings
            &&& match host {
                Some((p, _)) => after.windows == (Windows { toolbox: true, ..app.windows })
                    && after.error == app.error && effect == EffectModel::OpenToolbox(p),
                None => after.windows == app.windows && effect is Nothing && after.error == Some(
                    "服务器工具箱仅用于已连接的 SSH 会话"@,
                ),
            }
        }),
{
}

/// A form opens with what it is about: a new one with the defaults, and one for a
/// connection with that connection, which it remembers.
pub proof fn law_what_forms_open_with(app: AppModel, i: usize, macos: bool)
    ensures
        app.executed(ActionModel::Remote).form == (FormModel {
            open: true,
            kind: ProfileKind::Ssh,
            remote: default_remote(),
            serial: default_serial(),
            editing_profile: None,
            editing_serial: None,
        }),
        app.effect(ActionModel::Remote, macos) is ListPorts,
        i < app.settings.profiles.len() ==> {
            let form = app.executed(ActionModel::Edit(i)).form;
            &&& form.open && form.kind == ProfileKind::Ssh
            &&& form.remote == app.settings.profiles[i as int]
            &&& form.editing_profile == Some(i) && form.editing_serial is None
            &&& app.effect(ActionModel::Edit(i), macos) is Nothing
        },
        i < app.settings.serial_profiles.len() ==> {
            let form = app.executed(ActionModel::EditSerial(i)).form;
            &&& form.open && form.kind == ProfileKind::Serial
            &&& form.serial == app.settings.serial_profiles[i as int]
            &&& form.editing_serial == Some(i) && form.editing_profile is None
            &&& app.effect(ActionModel::EditSerial(i), macos) is ListPorts
        },
        app.executed(ActionModel::Remote).settings == app.settings,
        app.executed(ActionModel::Edit(i)).settings == app.settings,
        app.executed(ActionModel::EditSerial(i)).settings == app.settings,
        app.executed(ActionModel::Remote).workspace == app.workspace,
        app.executed(ActionModel::Edit(i)).workspace == app.workspace,
        app.executed(ActionModel::EditSerial(i)).workspace == app.workspace,
{
}

/// Removing a connection removes that one and no other, of the list it stands in and of
/// no other, and is kept.
pub proof fn law_removing_takes_one_connection(app: AppModel, i: usize, macos: bool)
    ensures
        ({
            let list = app.settings.profiles;
            let after = app.executed(ActionModel::Remove(i)).settings;
            &&& after.serial_profiles == app.settings.serial_profiles
            &&& i < list.len() ==> after.profiles == list.take(i as int) + list.skip(i + 1)
            &&& app.effect(ActionModel::Remove(i), macos) is Persist
        }),
        ({
            let list = app.settings.serial_profiles;
            let after = app.executed(ActionModel::RemoveSerial(i)).settings;
            &&& after.profiles == app.settings.profiles
            &&& i < list.len() ==> after.serial_profiles == list.take(i as int) + list.skip(i + 1)
            &&& app.effect(ActionModel::RemoveSerial(i), macos) is Persist
        }),
{
    let list = app.settings.profiles;
    if i < list.len() {
        assert(list.remove(i as int) =~= list.take(i as int) + list.skip(i + 1));
    }
    let list = app.settings.serial_profiles;
    if i < list.len() {
        assert(list.remove(i as int) =~= list.take(i as int) + list.skip(i + 1));
    }
}

/// A copy comes behind all the connections of its list, and is kept.
pub proof fn law_copies_come_last(app: AppModel, i: usize, macos: bool)
    ensures
        ({
            let list = app.settings.profiles;
            let after = app.executed(ActionModel::Duplicate(i)).settings;
            &&& after.serial_profiles == app.settings.serial_profiles
            &&& i < list.len() ==> after.profiles == list.push(remote_copy(list, i as int))
                && app.effect(ActionModel::Duplicate(i), macos) is Persist
            &&& i >= list.len() ==> after == app.settings && app.effect(
                ActionModel::Duplicate(i),
                macos,
            ) is Nothing
        }),
        ({
            let list = app.settings.serial_profiles;
            let after = app.executed(ActionModel::DuplicateSerial(i)).settings;
            &&& after.profiles == app.settings.profiles
            &&& i < list.len() ==> after.serial_profiles == list.push(serial_copy(list, i as int))
                && app.effect(ActionModel::DuplicateSerial(i), macos) is Persist
            &&& i >= list.len() ==> after == app.settings && app.effect(
                ActionModel::DuplicateSerial(i),
                macos,
            ) is Nothing
        }),
{
}

/// A host of the SSH configuration is taken over behind all the connections where it is in
/// order, and the user is told. Else the reason is shown, and nothing is kept.
pub proof fn law_what_taking_over_a_host_does(app: AppModel, p: RemoteModel, macos: bool)
    ensures
        ({
            let after = app.executed(ActionModel::AdoptSshConfig(p));
            let effect = app.effect(ActionModel::AdoptSshConfig(p), macos);
            match profile_error(p) {
                None => after.settings.profiles == app.settings.profiles.push(p) && after.notice
                    == Some("已保存连接 "@ + remote_label(p)) && after.error == app.error
                    && effect is Persist,
                Some(e) => after.settings == app.settings && after.notice == app.notice
                    && after.error == Some(e.text()) && effect is Nothing,
            }
        }),
        app.executed(ActionModel::AdoptSshConfig(p)).workspace == app.workspace,
        app.executed(ActionModel::AdoptSshConfig(p)).settings.serial_profiles
            == app.settings.serial_profiles,
{
}

/// Some actions only ask for something: a window, a split, the serial ports, the owner of
/// a port, or the files. They change nothing but that the hits of a search are gone.
pub proof fn law_actions_that_only_ask(app: AppModel, axis: Axis, port: Seq<char>, macos: bool)
    ensures
        ({
            let same = AppModel {
                search: SearchModel { hits: Seq::empty(), ..app.search },
                ..app
            };
            &&& app.executed(ActionModel::NewWindow) == same
            &&& app.executed(ActionModel::Split(axis)) == same
            &&& app.executed(ActionModel::SerialPicker) == same
            &&& app.executed(ActionModel::FindPortOwner(port)) == same
            &&& app.executed(ActionModel::Files) == same
        }),
        app.effect(ActionModel::NewWindow, macos) is OpenWindow,
        app.effect(ActionModel::SerialPicker, macos) is OpenPicker,
        app.effect(ActionModel::FindPortOwner(port), macos) == EffectModel::OpenPortOwner(port),
        app.effect(ActionModel::Files, macos) is OpenFiles,
{
}

/// A split of a pane that is connected to a host starts a session on the same connection,
/// along the axis that was asked for. Any other starts the default shell of this machine.
pub proof fn law_what_a_split_starts(app: AppModel, axis: Axis, macos: bool)
    requires
        app.workspace.can_split(),
        app.workspace.active < app.workspace.tabs.len(),
        app.workspace.tabs[app.workspace.active as int].focused
            < app.workspace.tabs[app.workspace.active as int].panes.len(),
    ensures
        ({
            let t = app.workspace.tabs[app.workspace.active as int];
            let pane = t.panes[t.focused as int];
            app.effect(ActionModel::Split(axis), macos) == (EffectModel::SplitSession {
                axis,
                kind: if pane.remote {
                    pane.kind
                } else {
                    KindModel::Local(app.settings.default_shell)
                },
                remote: pane.remote,
            })
        }),
{
}

/// Closing tabs and panes is done by the workspace alone: the action closes the tab, the
/// others, the ended ones or the pane that it names, and asks for nothing more.
pub proof fn law_what_closing_actions_close(app: AppModel, i: usize, macos: bool)
    ensures
        app.executed(ActionModel::CloseTab(i)).workspace == app.workspace.without_tab(i as int),
        app.executed(ActionModel::CloseOtherTabs(i)).workspace == app.workspace.only_tab(i as int),
        app.executed(ActionModel::CloseDisconnectedTabs).workspace == app.workspace.without_ended(),
        app.executed(ActionModel::ClosePane).workspace == app.workspace.without_pane(),
        app.executed(ActionModel::CloseTab(i)).settings == app.settings,
        app.executed(ActionModel::CloseOtherTabs(i)).settings == app.settings,
        app.executed(ActionModel::CloseDisconnectedTabs).settings == app.settings,
        app.executed(ActionModel::ClosePane).settings == app.settings,
        app.effect(ActionModel::CloseTab(i), macos) is Nothing,
        app.effect(ActionModel::CloseOtherTabs(i), macos) is Nothing,
        app.effect(ActionModel::CloseDisconnectedTabs, macos) is Nothing,
        app.effect(ActionModel::ClosePane, macos) is Nothing,
{
}

/// Disconnecting asks for the session of the focused pane to be ended, and says how it can
/// be brought back. A pane whose session has not started yet has none to end.
pub proof fn law_what_disconnecting_asks_for(app: AppModel, macos: bool)
    ensures
        ({
            let w = app.workspace;
            let effect = app.effect(ActionModel::Disconnect, macos);
            match w.current() {
                Some(pane) => if pane.pending {
                    effect is Nothing
                } else {
                    effect == (EffectModel::Detach {
                        tab: w.tabs[w.active as int].id,
                        pane: pane.id,
                        note: if macos {
                            "已断开（Option+R 重连）"@
                        } else {
                            "已断开（Alt+R 重连）"@
                        },
                    })
                },
                None => effect is Nothing,
            }
        }),
{
    reveal_strlit("已断开（");
    reveal_strlit("Option+");
    reveal_strlit("Alt+");
    reveal_strlit("R");
    reveal_strlit(" 重连）");
    reveal_strlit("已断开（Option+R 重连）");
    reveal_strlit("已断开（Alt+R 重连）");
    assert(detached_note(true) =~= "已断开（Option+R 重连）"@);
    assert(detached_note(false) =~= "已断开（Alt+R 重连）"@);
}

/// After every action the hits of the search are gone, and the search itself stays as it
/// is. What is open is put into the settings exactly where the action changed what is
/// kept.
pub proof fn law_what_every_action_leaves(app: AppModel, action: ActionModel)
    ensures
        app.executed(action).search.hits.len() == 0,
        app.executed(action).search.open == app.search.open,
        app.executed(action).search.focus == app.search.focus,
        app.executed(action).search.index == app.search.index,
        app.effect(action, false) is Persist ==> app.executed(action).settings.workspace
            == saved_tabs(app.workspace),
        !(app.effect(action, false) is Persist) ==> app.executed(action).settings == app.settings,
        app.executed(action).split_chooser == app.split_chooser,
        app.executed(action).confirm_exit == app.confirm_exit,
        app.executed(action).exit_confirmed == app.exit_confirmed,
        app.executed(action).sidebar_pinned == app.sidebar_pinned,
        forall|macos: bool| #[trigger]
            app.effect(action, macos) is Persist <==> app.effect(action, false) is Persist,
{
}

/// A key with Alt is called by the option key on a Mac.
pub proof fn law_how_alt_is_called(key: Seq<char>)
    ensures
        alt_text(key, true) == seq!['O', 'p', 't', 'i', 'o', 'n', '+'] + key,
        alt_text(key, false) == seq!['A', 'l', 't', '+'] + key,
{
    reveal_strlit("Option+");
    reveal_strlit("Alt+");
    assert("Option+"@ =~= seq!['O', 'p', 't', 'i', 'o', 'n', '+']);
    assert("Alt+"@ =~= seq!['A', 'l', 't', '+']);
}

/// Restarting a session of a host asks for the login again, in the pane where it runs,
/// which is left as it is until that has succeeded. Any other session is ended at once,
/// and asked for again in its pane.
pub proof fn law_what_restarting_asks_for(app: AppModel, macos: bool)
    ensures
        ({
            let w = app.workspace;
            let after = app.executed(ActionModel::Restart);
            let effect = app.effect(ActionModel::Restart, macos);
            match w.current() {
                Some(pane) => {
                    let tab = w.tabs[w.active as int].id;
                    match pane.kind {
                        KindModel::Ssh(p) | KindModel::Sftp(p) => {
                            &&& effect == (EffectModel::Login {
                                tab,
                                pane: pane.id,
                                profile: p,
                                address: address(p),
                            })
                            &&& after.login_target == Some((tab, pane.id))
                            &&& after.windows == (Windows { login: true, ..app.windows })
                            &&& after.workspace == w
                        },
                        kind => {
                            &&& effect == (EffectModel::Reconnect {
                                tab,
                                pane: pane.id,
                                kind,
                                target: target(kind),
                            })
                            &&& after.login_target == app.login_target
                            &&& after.windows == app.windows
                            &&& after.workspace == w.dropped(tab, pane.id)
                        },
                    }
                },
                None => effect is Nothing && after.workspace == w && after.windows == app.windows
                    && after.login_target == app.login_target,
            }
        }),
{
}

} // verus!
