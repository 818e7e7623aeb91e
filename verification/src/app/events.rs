//! What the caller reports back: how sessions, logins and splits went, and how
//! the terminal starts.

use crate::app::{
    App, AppModel, Effect, EffectModel, Form, FormModel, ProfileKind, Search, SearchModel,
    Windows,
};
use crate::config::profile::{default_remote, default_serial, RemoteProfile, SerialProfile};
use crate::config::settings::{Settings, SettingsModel};
use crate::layout::{saved_models, Axis, SavedModel, SavedTab};
use crate::session::{
    address, address_of, connect_target, target, KindModel, SessionKind, SessionStatus,
};
use crate::workspace::saved::{restored, saved_tabs};
use crate::workspace::{
    live_pane, pending_pane, PaneModel, TabModel, Workspace, WorkspaceModel, MAX_RESTORED,
};
use vstd::prelude::*;

verus! {

/// No window is open.
pub open spec fn no_windows() -> Windows {
    Windows {
        settings: false,
        groups: false,
        help: false,
        update: false,
        login: false,
        files: false,
        toolbox: false,
    }
}

/// A terminal with nothing in it yet.
pub open spec fn empty_app(settings: SettingsModel, error: Option<Seq<char>>) -> AppModel {
    AppModel {
        settings,
        workspace: WorkspaceModel { tabs: Seq::empty(), active: 0, next_id: 0 },
        form: FormModel {
            open: false,
            kind: ProfileKind::Ssh,
            remote: default_remote(),
            serial: default_serial(),
            editing_profile: None,
            editing_serial: None,
        },
        search: SearchModel { open: false, focus: false, hits: Seq::empty(), index: 0 },
        windows: no_windows(),
        login_target: None,
        split_chooser: None,
        error,
        notice: None,
        sidebar_pinned: false,
        confirm_exit: false,
        exit_confirmed: false,
    }
}

/// The saved tabs that a start looks at.
pub open spec fn first_saved(list: Seq<SavedModel>) -> Seq<SavedModel> {
    if list.len() > MAX_RESTORED {
        list.take(MAX_RESTORED as int)
    } else {
        list
    }
}

/// The terminal with the saved tabs, where they are asked for.
pub open spec fn with_saved(
    settings: SettingsModel,
    error: Option<Seq<char>>,
    restore: bool,
) -> AppModel {
    let app = empty_app(settings, error);
    if restore && settings.restore_tabs {
        app.with_workspace(restored(app.workspace, first_saved(settings.workspace)))
    } else {
        app
    }
}

/// The terminal at its start: the saved tabs, or a tab with the default shell
/// where none came back.
pub open spec fn started_app(
    settings: SettingsModel,
    error: Option<Seq<char>>,
    restore: bool,
) -> AppModel {
    let app = with_saved(settings, error, restore);
    if app.workspace.tabs.len() == 0 {
        app.opened(KindModel::Local(settings.default_shell))
    } else {
        app
    }
}

/// What the start asks for.
pub open spec fn starting(
    settings: SettingsModel,
    error: Option<Seq<char>>,
    restore: bool,
) -> EffectModel {
    let app = with_saved(settings, error, restore);
    if app.workspace.tabs.len() == 0 {
        app.opening(KindModel::Local(settings.default_shell))
    } else {
        EffectModel::Nothing
    }
}

impl AppModel {
    /// The terminal once a session was exchanged in the pane of a split. The tab
    /// stays where it is.
    pub open spec fn exchanged(self, tab_id: u64, pane_id: u64, kind: KindModel) -> AppModel {
        let w = self.workspace;
        let id = (w.next_id + 1) as u64;
        match w.place(tab_id, pane_id) {
            Some((i, a)) => self.with_workspace(w.with_pane(i, a, live_pane(id, kind, false))),
            None => self.with_workspace(WorkspaceModel { next_id: id, ..w }),
        }
    }

    /// The terminal once a session was chosen for a fresh split.
    pub open spec fn chosen(self, kind: KindModel) -> AppModel {
        let next = AppModel { split_chooser: None, ..self };
        match self.split_chooser {
            Some((tab, pane)) => if self.workspace.place(tab, pane) is Some && kind is Ssh {
                AppModel {
                    login_target: Some((tab, pane)),
                    windows: Windows { login: true, ..self.windows },
                    ..next
                }
            } else {
                next
            },
            None => next,
        }
    }

    /// What choosing a session for a fresh split asks for.
    pub open spec fn choosing(self, kind: KindModel) -> EffectModel {
        match self.split_chooser {
            Some((tab, pane)) => if self.workspace.place(tab, pane) is Some {
                match kind {
                    KindModel::Ssh(p) => EffectModel::Login {
                        tab,
                        pane,
                        profile: p,
                        address: address(p),
                    },
                    kind => EffectModel::Exchange { tab, pane, kind },
                }
            } else {
                EffectModel::Nothing
            },
            None => EffectModel::Nothing,
        }
    }
}

impl App {
    /// A terminal with nothing in it yet.
    fn empty(settings: Settings, error: Option<String>) -> (out: App)
        ensures
            out@ == empty_app(settings@, crate::text::optional(error)),
            out@.well_formed(),
    {
        let out = App {
            settings,
            workspace: Workspace::new(),
            form: Form {
                open: false,
                kind: ProfileKind::Ssh,
                remote: RemoteProfile::default(),
                serial: SerialProfile::default(),
                editing_profile: None,
                editing_serial: None,
            },
            search: Search { open: false, focus: false, hits: Vec::new(), index: 0 },
            windows: Windows {
                settings: false,
                groups: false,
                help: false,
                update: false,
                login: false,
                files: false,
                toolbox: false,
            },
            login_target: None,
            split_chooser: None,
            error,
            notice: None,
            sidebar_pinned: false,
            confirm_exit: false,
            exit_confirmed: false,
        };
        assert(out@ =~= empty_app(settings@, crate::text::optional(error)));
        out
    }

    /// Starts the terminal: with the tabs that were open at the last exit, where
    /// that is set and asked for, else with the default shell.
    pub fn new(settings: Settings, error: Option<String>, restore: bool) -> (out: (App, Effect))
        ensures
            out.0@ == started_app(settings@, crate::text::optional(error), restore),
            out.0@.well_formed(),
            out.1@ == starting(settings@, crate::text::optional(error), restore),
    {
        let ghost model = settings@;
        let ghost wrong = crate::text::optional(error);
        let mut app: App = App::empty(settings, error);
        if restore && app.settings.restore_tabs {
            let n: usize = app.settings.workspace.len();
            let mut list: Vec<SavedTab> = Vec::new();
            let mut i: usize = 0;
            while i < n
                invariant
                    i <= n,
                    n == app.settings.workspace@.len(),
                    list@.len() == i,
                    forall|k: int|
                        0 <= k < i ==> (#[trigger] list@[k])@ == app.settings.workspace@[k]@,
                decreases n - i,
            {
                list.push(app.settings.workspace[i].duplicate());
                i += 1;
            }
            assert(saved_models(list@) =~= model.workspace);
            app.workspace.restore(list);
        }
        assert(app@ =~= with_saved(model, wrong, restore));
        if app.workspace.tabs.len() == 0 {
            proof {
                crate::workspace::saved::lemma_restored(
                    empty_app(model, wrong).workspace,
                    first_saved(model.workspace),
                );
            }
            let shell: String = app.settings.default_shell.clone();
            let effect = app.open(SessionKind::Local(shell));
            (app, effect)
        } else {
            (app, Effect::Nothing)
        }
    }

    /// Takes over that a session has started in a pane. Says whether its console
    /// should say so: a shell starts a program rather than connecting, so there
    /// is nothing to call connected.
    pub fn session_started(&mut self, tab: u64, pane: u64, kind: SessionKind) -> (note: bool)
        requires
            old(self)@.well_formed(),
            old(self)@.workspace.next_id < u64::MAX,
        ensures
            final(self)@ == old(self)@.with_workspace(
                old(self)@.workspace.started(tab, pane, kind@),
            ),
            final(self)@.well_formed(),
            note == (old(self)@.workspace.place(tab, pane) is Some && target(kind@) is Some),
    {
        let named = connect_target(&kind).is_some();
        let found = self.workspace.session_started(tab, pane, kind);
        assert(self@ =~= old(self)@.with_workspace(self.workspace@));
        found && named
    }

    /// Takes over that a session failed to start in a pane. Gives the port whose
    /// owner should be looked for: a serial port that would not open is very
    /// often held by another program.
    pub fn session_failed(&mut self, tab: u64, pane: u64, kind: SessionKind) -> (port: Option<
        String,
    >)
        requires
            old(self)@.well_formed(),
        ensures
            final(self)@ == old(self)@.with_workspace(
                old(self)@.workspace.failed(tab, pane, kind@),
            ),
            final(self)@.well_formed(),
            crate::text::optional(port) == (match kind@ {
                KindModel::Serial(p) => Some(p.port),
                _ => None,
            }),
    {
        let port: Option<String> = match &kind {
            SessionKind::Serial(p) => Some(p.port.clone()),
            _ => None,
        };
        self.workspace.session_failed(tab, pane, kind);
        assert(self@ =~= old(self)@.with_workspace(self.workspace@));
        port
    }

    /// Takes over a connection to a host whose login has succeeded. Says whether
    /// it went into the pane that it was for, whose console should say so.
    pub fn login_succeeded(&mut self, kind: SessionKind) -> (note: bool)
        requires
            old(self)@.well_formed(),
            old(self)@.workspace.next_id < u64::MAX,
            old(self)@.workspace.tabs.len() < usize::MAX,
        ensures
            final(self)@ == (AppModel {
                workspace: old(self)@.workspace.connected(old(self)@.login_target, kind@),
                login_target: None,
                windows: Windows { login: false, ..old(self)@.windows },
                ..old(self)@
            }),
            final(self)@.well_formed(),
            note == (match old(self)@.login_target {
                Some((tab, pane)) => old(self)@.workspace.place(tab, pane) is Some,
                None => false,
            }),
    {
        let at: Option<(u64, u64)> = self.login_target;
        self.login_target = None;
        self.windows.login = false;
        let found = self.workspace.add_connection(at, kind);
        assert(self@ =~= AppModel {
            workspace: self.workspace@,
            login_target: None,
            windows: Windows { login: false, ..old(self)@.windows },
            ..old(self)@
        });
        found
    }

    /// Takes over that a login was given up. Its pane stays, and offers another
    /// try. Gives the pane whose console should say so.
    pub fn login_cancelled(&mut self) -> (at: Option<(u64, u64)>)
        requires
            old(self)@.well_formed(),
        ensures
            final(self)@ == (AppModel {
                workspace: match old(self)@.login_target {
                    Some((tab, pane)) => old(self)@.workspace.dropped(tab, pane),
                    None => old(self)@.workspace,
                },
                login_target: None,
                windows: Windows { login: false, ..old(self)@.windows },
                ..old(self)@
            }),
            final(self)@.well_formed(),
            at == old(self)@.login_target,
    {
        let at: Option<(u64, u64)> = self.login_target;
        self.login_target = None;
        self.windows.login = false;
        if let Some((tab, pane)) = at {
            self.workspace.drop_session(tab, pane);
        }
        assert(self@ =~= AppModel {
            workspace: self.workspace@,
            login_target: None,
            windows: Windows { login: false, ..old(self)@.windows },
            ..old(self)@
        });
        at
    }

    /// Takes over the session that was started for a split, and offers to choose
    /// another.
    pub fn split_ready(&mut self, axis: Axis, kind: SessionKind, remote: bool)
        requires
            old(self)@.well_formed(),
            old(self)@.workspace.can_split(),
            old(self)@.workspace.next_id < u64::MAX,
        ensures
            ({
                let w = old(self)@.workspace;
                let id = (w.next_id + 1) as u64;
                final(self)@ == (AppModel {
                    workspace: w.after_split(axis, live_pane(id, kind@, remote)),
                    split_chooser: Some((w.tabs[w.active as int].id, id)),
                    ..old(self)@
                })
            }),
            final(self)@.well_formed(),
    {
        let ids: (u64, u64) = self.workspace.split(axis, kind, remote);
        self.split_chooser = Some(ids);
        assert(self@ =~= AppModel {
            workspace: self.workspace@,
            split_chooser: Some(ids),
            ..old(self)@
        });
    }

    /// Takes over which session a fresh split should hold.
    pub fn choose_split(&mut self, kind: SessionKind) -> (effect: Effect)
        ensures
            final(self)@ == old(self)@.chosen(kind@),
            effect@ == old(self)@.choosing(kind@),
    {
        let ghost before = self@;
        let at: Option<(u64, u64)> = self.split_chooser;
        self.split_chooser = None;
        let effect = match at {
            Some((tab, pane)) => {
                if self.workspace.locate(tab, pane).is_some() {
                    match kind {
                        SessionKind::Ssh(p) => {
                            self.login_target = Some((tab, pane));
                            self.windows.login = true;
                            let address: String = address_of(&p);
                            Effect::Login { tab, pane, profile: p, address }
                        },
                        kind => Effect::Exchange { tab, pane, kind },
                    }
                } else {
                    Effect::Nothing
                }
            },
            None => Effect::Nothing,
        };
        assert(self@ =~= before.chosen(kind@));
        effect
    }

    /// Keeps the session that a fresh split has. A pane that is gone is not
    /// asked about any more either.
    pub fn keep_split(&mut self)
        ensures
            final(self)@ == (AppModel { split_chooser: None, ..old(self)@ }),
    {
        self.split_chooser = None;
        assert(self@ =~= AppModel { split_chooser: None, ..old(self)@ });
    }

    /// Whether the user is asked which session a fresh split should hold: while
    /// its pane still exists.
    pub fn asks_for_split(&self) -> (yes: bool)
        ensures
            yes == (match self@.split_chooser {
                Some((tab, pane)) => self@.workspace.place(tab, pane) is Some,
                None => false,
            }),
    {
        match self.split_chooser {
            Some((tab, pane)) => self.workspace.locate(tab, pane).is_some(),
            None => false,
        }
    }

    /// Takes over that another session was started in the pane of a split.
    pub fn session_exchanged(&mut self, tab: u64, pane: u64, kind: SessionKind)
        requires
            old(self)@.well_formed(),
            old(self)@.workspace.next_id < u64::MAX,
        ensures
            final(self)@ == old(self)@.exchanged(tab, pane, kind@),
            final(self)@.well_formed(),
    {
        let active: usize = self.workspace.active;
        let ghost w = self@.workspace;
        let found = self.workspace.session_started(tab, pane, kind);
        self.workspace.active = active;
        proof {
            let after = self@.workspace;
            assert(w.started(tab, pane, kind@).well_formed());
            assert(after =~= old(self)@.exchanged(tab, pane, kind@).workspace);
            assert(after.tabs == w.started(tab, pane, kind@).tabs);
            crate::workspace::lemma_selection_keeps_ids(
                w.started(tab, pane, kind@),
                after,
                Seq::new(after.tabs.len(), |k: int| k),
            );
            crate::workspace::panes::lemma_place(w, tab, pane);
            assert(after.tabs.len() == w.tabs.len());
            assert forall|i: int| 0 <= i < after.tabs.len() implies (
            #[trigger] after.tabs[i]).well_formed() by {
                assert(w.started(tab, pane, kind@).tabs[i].well_formed());
            }
        }
        assert(self@ =~= old(self)@.exchanged(tab, pane, kind@));
    }

    /// Puts what is open into the settings, for the next start.
    pub fn keep_tabs(&mut self)
        ensures
            final(self)@ == old(self)@.kept(),
    {
        self.settings.workspace = self.workspace.snapshot();
        assert(self.settings@ =~= SettingsModel {
            workspace: saved_tabs(old(self)@.workspace),
            ..old(self)@.settings
        });
        assert(self@ =~= old(self)@.with_settings(self.settings@));
    }
}

/// A first start shows no window, searches nothing and asks nothing.
pub proof fn law_a_start_shows_no_window(settings: SettingsModel, error: Option<Seq<char>>)
    ensures
        ({
            let app = empty_app(settings, error);
            &&& app.settings == settings && app.error == error && app.notice is None
            &&& app.workspace.tabs.len() == 0 && app.workspace.active == 0
                && app.workspace.next_id == 0
            &&& !app.form.open && app.form.kind == ProfileKind::Ssh
            &&& app.form.editing_profile is None && app.form.editing_serial is None
            &&& !app.search.open && !app.search.focus && app.search.hits.len() == 0
                && app.search.index == 0
            &&& !app.windows.settings && !app.windows.groups && !app.windows.help
                && !app.windows.update && !app.windows.login && !app.windows.files
                && !app.windows.toolbox
            &&& app.login_target is None && app.split_chooser is None
            &&& !app.sidebar_pinned && !app.confirm_exit && !app.exit_confirmed
        }),
{
}

/// No more than the first 32 of the saved tabs are brought back, in their order.
pub proof fn law_how_many_tabs_come_back(list: Seq<SavedModel>)
    ensures
        first_saved(list).len() <= 32,
        list.len() <= 32 ==> first_saved(list) == list,
        list.len() > 32 ==> first_saved(list) == list.take(32),
{
}

/// The saved tabs come back where both the setting and the start want it. Where nothing
/// has come back, the start opens the default shell of this machine in a tab of its own,
/// and else nothing.
pub proof fn law_what_a_start_opens(
    settings: SettingsModel,
    error: Option<Seq<char>>,
    restore: bool,
)
    ensures
        ({
            let nothing = WorkspaceModel { tabs: Seq::empty(), active: 0, next_id: 0 };
            let back = restored(nothing, first_saved(settings.workspace));
            let app = started_app(settings, error, restore);
            let shell = KindModel::Local(settings.default_shell);
            &&& app.settings == settings && app.error == error && app.login_target is None
            &&& if restore && settings.restore_tabs && back.tabs.len() > 0 {
                app.workspace == back && starting(settings, error, restore) is Nothing
            } else if restore && settings.restore_tabs {
                app.workspace == back.with_tab(pending_pane((back.next_id + 1) as u64, shell))
            } else {
                &&& app.workspace.tabs.len() == 1 && app.workspace.active == 0
                &&& app.workspace.tabs[0].id == 1 && app.workspace.next_id == 1
                &&& app.workspace.tabs[0].panes == seq![pending_pane(1, shell)]
                &&& starting(settings, error, restore) == (EffectModel::Connect {
                    tab: 1,
                    pane: 1,
                    kind: shell,
                    target: target(shell),
                })
            }
        }),
{
}

/// Exchanging the session of a pane starts another there, live, and gives it the keyboard
/// of its tab. Nothing else changes, and a pane that is gone stays gone.
pub proof fn law_what_an_exchange_changes(app: AppModel, tab_id: u64, pane_id: u64, kind: KindModel)
    requires
        app.workspace.next_id < u64::MAX,
    ensures
        app.exchanged(tab_id, pane_id, kind) == (AppModel {
            workspace: app.exchanged(tab_id, pane_id, kind).workspace,
            ..app
        }),
        app.exchanged(tab_id, pane_id, kind).workspace.active == app.workspace.active,
        app.exchanged(tab_id, pane_id, kind).workspace.next_id == app.workspace.next_id + 1,
        app.workspace.place(tab_id, pane_id) is None ==> app.exchanged(
            tab_id,
            pane_id,
            kind,
        ).workspace.tabs == app.workspace.tabs,
        app.workspace.place(tab_id, pane_id) matches Some((i, a)) ==> app.exchanged(
            tab_id,
            pane_id,
            kind,
        ).workspace.tabs == app.workspace.tabs.update(
            i,
            TabModel {
                panes: app.workspace.tabs[i].panes.update(
                    a,
                    PaneModel {
                        id: (app.workspace.next_id + 1) as u64,
                        kind,
                        link: SessionStatus::Live,
                        pending: false,
                        remote: false,
                        received: 0,
                        bell: false,
                    },
                ),
                focused: a as usize,
                ..app.workspace.tabs[i]
            },
        ),
{
}

/// A choice ends the question. Where its pane is still there, a host is logged in to
/// there first, and anything else is started there at once; where it is gone, nothing
/// happens.
pub proof fn law_what_a_choice_does(app: AppModel, kind: KindModel, tab: u64, pane: u64)
    ensures
        app.chosen(kind).split_chooser is None,
        app.chosen(kind).workspace == app.workspace,
        app.chosen(kind).settings == app.settings,
        app.split_chooser is None ==> app.choosing(kind) is Nothing && app.chosen(kind) == app,
        app.split_chooser == Some((tab, pane)) && app.workspace.place(tab, pane) is None
            ==> app.choosing(kind) is Nothing && app.chosen(kind) == (AppModel {
            split_chooser: None,
            ..app
        }),
        app.split_chooser == Some((tab, pane)) && app.workspace.place(tab, pane) is Some ==> (
        match kind {
            KindModel::Ssh(p) => app.choosing(kind) == (EffectModel::Login {
                tab,
                pane,
                profile: p,
                address: address(p),
            }) && app.chosen(kind) == (AppModel {
                split_chooser: None,
                login_target: Some((tab, pane)),
                windows: Windows { login: true, ..app.windows },
                ..app
            }),
            _ => app.choosing(kind) == (EffectModel::Exchange { tab, pane, kind }) && app.chosen(
                kind,
            ) == (AppModel { split_chooser: None, ..app }),
        }),
{
}

} // verus!
