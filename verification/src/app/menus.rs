//! The menus: what they offer, in which order, and what each entry does.

use crate::app::actions::{alt_accel, alt_text};
use crate::app::titlebar::{accel, accel_text};
use crate::app::{Action, ActionModel, App, AppModel};
use crate::config::profile::{
    remote_label, remote_models, serial_label, serial_models, text_copy, RemoteModel,
    RemoteProfile, SerialModel, SerialProfile,
};
use crate::icons::Icon;
use crate::layout::Axis;
use crate::session::{KindModel, SessionKind, SessionStatus};
use crate::text::optional;
use vstd::prelude::*;

verus! {

/// What an entry of a menu does.
#[derive(Debug)]
pub enum Choice {
    Do { action: Action },
    OpenSearch,
    OpenGroups,
    OpenSettings,
    OpenHelp,
}

/// What an entry of a menu does, as a value.
pub enum ChoiceModel {
    Do { action: ActionModel },
    OpenSearch,
    OpenGroups,
    OpenSettings,
    OpenHelp,
}

impl View for Choice {
    type V = ChoiceModel;

    open spec fn view(&self) -> ChoiceModel {
        match self {
            Choice::Do { action } => ChoiceModel::Do { action: action@ },
            Choice::OpenSearch => ChoiceModel::OpenSearch,
            Choice::OpenGroups => ChoiceModel::OpenGroups,
            Choice::OpenSettings => ChoiceModel::OpenSettings,
            Choice::OpenHelp => ChoiceModel::OpenHelp,
        }
    }
}

/// An entry of a menu.
#[derive(Debug)]
pub struct Entry {
    pub icon: Option<Icon>,
    pub text: String,
    /// The shortcut for it, where it has one.
    pub shortcut: Option<String>,
    pub enabled: bool,
    pub choice: Choice,
}

/// An entry of a menu, as a value.
#[verifier::ext_equal]
pub struct EntryModel {
    pub icon: Option<Icon>,
    pub text: Seq<char>,
    pub shortcut: Option<Seq<char>>,
    pub enabled: bool,
    pub choice: ChoiceModel,
}

impl View for Entry {
    type V = EntryModel;

    open spec fn view(&self) -> EntryModel {
        EntryModel {
            icon: self.icon,
            text: self.text@,
            shortcut: optional(self.shortcut),
            enabled: self.enabled,
            choice: self.choice@,
        }
    }
}

/// The entries of a menu, as values.
pub open spec fn entry_models(list: Seq<Entry>) -> Seq<EntryModel> {
    list.map_values(|e: Entry| e@)
}

/// An entry with an icon that asks for an action.
pub open spec fn with_icon(icon: Icon, text: Seq<char>, action: ActionModel) -> EntryModel {
    EntryModel {
        icon: Some(icon),
        text,
        shortcut: None,
        enabled: true,
        choice: ChoiceModel::Do { action },
    }
}

/// The entry with a shortcut.
pub open spec fn on_key(e: EntryModel, shortcut: Seq<char>) -> EntryModel {
    EntryModel { shortcut: Some(shortcut), ..e }
}

/// A plain entry that asks for an action.
pub open spec fn plain(text: Seq<char>, enabled: bool, action: ActionModel) -> EntryModel {
    EntryModel { icon: None, text, shortcut: None, enabled, choice: ChoiceModel::Do { action } }
}

/// The first part of the main menu: what can always be asked for.
pub open spec fn opening_entries(shell: Seq<char>, port: Seq<char>, macos: bool) -> Seq<
    EntryModel,
> {
    seq![
        on_key(
            with_icon(Icon::Terminal, "新建终端"@, ActionModel::New(KindModel::Local(shell))),
            accel_text("Ctrl+Shift+T"@, macos),
        ),
        with_icon(Icon::Terminal, "新建窗口"@, ActionModel::NewWindow),
        with_icon(Icon::Host, "新建 SSH 连接"@, ActionModel::Remote),
        with_icon(Icon::Terminal, "连接串口"@, ActionModel::SerialPicker),
        with_icon(Icon::Host, "串口占用排查"@, ActionModel::FindPortOwner(port)),
        with_icon(Icon::File, "文件与传输队列"@, ActionModel::Files),
        on_key(
            with_icon(Icon::SplitHorizontal, "左右分屏"@, ActionModel::Split(Axis::Horizontal)),
            accel_text("Ctrl+Shift+D"@, macos),
        ),
        on_key(
            with_icon(Icon::SplitVertical, "上下分屏"@, ActionModel::Split(Axis::Vertical)),
            accel_text("Ctrl+Shift+E"@, macos),
        ),
        on_key(
            with_icon(Icon::ClosePane, "关闭窗格"@, ActionModel::ClosePane),
            accel_text("Ctrl+Shift+W"@, macos),
        ),
    ]
}

impl AppModel {
    /// Whether the focused session is live.
    pub open spec fn focused_live(self) -> bool {
        self.workspace.current() matches Some(pane) && pane.link == SessionStatus::Live
    }

    /// Whether the focused session runs over a connection to a host.
    pub open spec fn focused_remote(self) -> bool {
        self.workspace.current() matches Some(pane) && pane.remote
    }

    /// The second part of the main menu: only what the state of the focused
    /// session can do. A live one can be disconnected, one that has ended
    /// connected again, and a live local shell can still be restarted.
    pub open spec fn session_entries(self, macos: bool) -> Seq<EntryModel> {
        (if self.focused_live() {
            seq![
                on_key(
                    with_icon(Icon::ClosePane, "断开当前连接"@, ActionModel::Disconnect),
                    alt_text("C"@, macos),
                ),
            ]
        } else {
            Seq::empty()
        }) + (if self.focused_live() && self.focused_remote() {
            Seq::empty()
        } else {
            seq![
                on_key(
                    with_icon(
                        Icon::Restart,
                        if self.focused_live() {
                            "重新连接 / 重启"@
                        } else {
                            "重新连接"@
                        },
                        ActionModel::Restart,
                    ),
                    alt_text("R"@, macos),
                ),
            ]
        }) + seq![
            EntryModel {
                icon: Some(Icon::Search),
                text: "查找历史"@,
                shortcut: Some(accel_text("Ctrl+Shift+F"@, macos)),
                enabled: true,
                choice: ChoiceModel::OpenSearch,
            },
        ]
    }

    /// The terminal once an entry that opens a window was chosen.
    pub open spec fn chose(self, choice: ChoiceModel) -> AppModel {
        match choice {
            ChoiceModel::Do { .. } => self,
            ChoiceModel::OpenSearch => AppModel {
                search: crate::app::SearchModel { open: true, focus: true, ..self.search },
                ..self
            },
            ChoiceModel::OpenGroups => AppModel {
                windows: crate::app::Windows { groups: true, ..self.windows },
                ..self
            },
            ChoiceModel::OpenSettings => AppModel {
                windows: crate::app::Windows { settings: true, ..self.windows },
                ..self
            },
            ChoiceModel::OpenHelp => AppModel {
                windows: crate::app::Windows { help: true, ..self.windows },
                ..self
            },
        }
    }
}

/// The last part of the main menu.
pub open spec fn closing_entries(macos: bool) -> Seq<EntryModel> {
    seq![
        EntryModel {
            icon: Some(Icon::Group),
            text: "连接分组管理"@,
            shortcut: None,
            enabled: true,
            choice: ChoiceModel::OpenGroups,
        },
        with_icon(Icon::Settings, "服务器工具箱"@, ActionModel::Toolbox),
        EntryModel {
            icon: Some(Icon::Settings),
            text: "偏好设置"@,
            shortcut: Some(accel_text("Ctrl+,"@, macos)),
            enabled: true,
            choice: ChoiceModel::OpenSettings,
        },
        EntryModel {
            icon: Some(Icon::Help),
            text: "快捷键 / 关于"@,
            shortcut: None,
            enabled: true,
            choice: ChoiceModel::OpenHelp,
        },
        with_icon(Icon::Refresh, "检查更新"@, ActionModel::CheckUpdates),
    ]
}

fn entry(icon: Option<Icon>, text: &str, shortcut: Option<String>, choice: Choice) -> (out: Entry)
    ensures
        out@ == (EntryModel {
            icon,
            text: text@,
            shortcut: optional(shortcut),
            enabled: true,
            choice: choice@,
        }),
{
    Entry { icon, text: text_copy(text), shortcut, enabled: true, choice }
}

fn act(icon: Icon, text: &str, shortcut: Option<String>, action: Action) -> (out: Entry)
    ensures
        out@ == (EntryModel { shortcut: optional(shortcut), ..with_icon(icon, text@, action@) }),
{
    entry(Some(icon), text, shortcut, Choice::Do { action })
}

fn line(text: &str, enabled: bool, action: Action) -> (out: Entry)
    ensures
        out@ == plain(text@, enabled, action@),
{
    Entry { icon: None, text: text_copy(text), shortcut: None, enabled, choice: Choice::Do { action } }
}

fn add(list: &mut Vec<Entry>, e: Entry)
    ensures
        entry_models(final(list)@) == entry_models(old(list)@).push(e@),
{
    list.push(e);
    assert(entry_models(list@) =~= entry_models(old(list)@).push(e@));
}

fn none() -> (out: Vec<Entry>)
    ensures
        entry_models(out@) == Seq::<EntryModel>::empty(),
{
    let out: Vec<Entry> = Vec::new();
    assert(entry_models(out@) =~= Seq::<EntryModel>::empty());
    out
}

/// The first part of the main menu. `port` is the serial port that looking for
/// an owner starts with.
pub fn opening_menu(shell: &str, port: &str, macos: bool) -> (out: Vec<Entry>)
    ensures
        entry_models(out@) == opening_entries(shell@, port@, macos),
{
    let mut out: Vec<Entry> = none();
    self::add(
        &mut out,
        act(
            Icon::Terminal,
            "新建终端",
            Some(accel("Ctrl+Shift+T", macos)),
            Action::New(SessionKind::Local(text_copy(shell))),
        ),
    );
    self::add(&mut out, act(Icon::Terminal, "新建窗口", None, Action::NewWindow));
    self::add(&mut out, act(Icon::Host, "新建 SSH 连接", None, Action::Remote));
    self::add(&mut out, act(Icon::Terminal, "连接串口", None, Action::SerialPicker));
    self::add(
        &mut out,
        act(Icon::Host, "串口占用排查", None, Action::FindPortOwner(text_copy(port))),
    );
    self::add(&mut out, act(Icon::File, "文件与传输队列", None, Action::Files));
    self::add(
        &mut out,
        act(
            Icon::SplitHorizontal,
            "左右分屏",
            Some(accel("Ctrl+Shift+D", macos)),
            Action::Split(Axis::Horizontal),
        ),
    );
    self::add(
        &mut out,
        act(
            Icon::SplitVertical,
            "上下分屏",
            Some(accel("Ctrl+Shift+E", macos)),
            Action::Split(Axis::Vertical),
        ),
    );
    self::add(
        &mut out,
        act(
            Icon::ClosePane,
            "关闭窗格",
            Some(accel("Ctrl+Shift+W", macos)),
            Action::ClosePane,
        ),
    );
    assert(entry_models(out@) =~= opening_entries(shell@, port@, macos));
    out
}

/// The last part of the main menu.
pub fn closing_menu(macos: bool) -> (out: Vec<Entry>)
    ensures
        entry_models(out@) == closing_entries(macos),
{
    let mut out: Vec<Entry> = none();
    self::add(&mut out, entry(Some(Icon::Group), "连接分组管理", None, Choice::OpenGroups));
    self::add(&mut out, act(Icon::Settings, "服务器工具箱", None, Action::Toolbox));
    self::add(
        &mut out,
        entry(
            Some(Icon::Settings),
            "偏好设置",
            Some(accel("Ctrl+,", macos)),
            Choice::OpenSettings,
        ),
    );
    self::add(&mut out, entry(Some(Icon::Help), "快捷键 / 关于", None, Choice::OpenHelp));
    self::add(&mut out, act(Icon::Refresh, "检查更新", None, Action::CheckUpdates));
    assert(entry_models(out@) =~= closing_entries(macos));
    out
}

impl App {
    /// The second part of the main menu.
    pub fn session_entries(&self, macos: bool) -> (out: Vec<Entry>)
        requires
            self@.well_formed(),
        ensures
            entry_models(out@) == self@.session_entries(macos),
    {
        let menu = self.session_menu();
        let mut out: Vec<Entry> = none();
        if menu.disconnect {
            self::add(
                &mut out,
                act(
                    Icon::ClosePane,
                    "断开当前连接",
                    Some(alt_accel("C", macos)),
                    Action::Disconnect,
                ),
            );
        }
        match menu.restart {
            Some(label) => {
                self::add(
                    &mut out,
                    act(Icon::Restart, label.text(), Some(alt_accel("R", macos)), Action::Restart),
                );
            },
            None => {},
        }
        self::add(
            &mut out,
            entry(
                Some(Icon::Search),
                "查找历史",
                Some(accel("Ctrl+Shift+F", macos)),
                Choice::OpenSearch,
            ),
        );
        assert(entry_models(out@) =~= self@.session_entries(macos));
        out
    }

    /// Takes over an entry that was chosen. Gives the action that it asks for.
    pub fn choose_entry(&mut self, choice: Choice) -> (out: Option<Action>)
        ensures
            final(self)@ == old(self)@.chose(choice@),
            match choice {
                Choice::Do { action } => out == Some(action),
                _ => out is None,
            },
    {
        match choice {
            Choice::Do { action } => {
                return Some(action);
            },
            Choice::OpenSearch => {
                self.search.open = true;
                self.search.focus = true;
            },
            Choice::OpenGroups => {
                self.windows.groups = true;
            },
            Choice::OpenSettings => {
                self.windows.settings = true;
            },
            Choice::OpenHelp => {
                self.windows.help = true;
            },
        }
        assert(self@ =~= old(self)@.chose(choice@));
        None
    }

    /// The menu of a tab.
    pub fn tab_menu(&self, i: usize) -> (out: Vec<Entry>)
        ensures
            entry_models(out@) == self@.tab_entries(i),
    {
        let others = self.workspace.tabs.len() > 1;
        let ended = self.any_tab_ended();
        let mut out: Vec<Entry> = none();
        self::add(&mut out, line("左右分屏", true, Action::Split(Axis::Horizontal)));
        self::add(&mut out, line("上下分屏", true, Action::Split(Axis::Vertical)));
        self::add(&mut out, line("复制会话", true, Action::DuplicateSession(i)));
        self::add(&mut out, line("关闭标签", true, Action::CloseTab(i)));
        self::add(&mut out, line("关闭其它标签页", others, Action::CloseOtherTabs(i)));
        self::add(&mut out, line("关闭断开的标签页", ended, Action::CloseDisconnectedTabs));
        assert(entry_models(out@) =~= self@.tab_entries(i));
        out
    }
}

impl AppModel {
    /// The menu of a tab. Closing the others is offered where there are others,
    /// and closing those that have ended where there is one.
    pub open spec fn tab_entries(self, i: usize) -> Seq<EntryModel> {
        seq![
            plain("左右分屏"@, true, ActionModel::Split(Axis::Horizontal)),
            plain("上下分屏"@, true, ActionModel::Split(Axis::Vertical)),
            plain("复制会话"@, true, ActionModel::DuplicateSession(i)),
            plain("关闭标签"@, true, ActionModel::CloseTab(i)),
            plain(
                "关闭其它标签页"@,
                self.workspace.tabs.len() > 1,
                ActionModel::CloseOtherTabs(i),
            ),
            plain(
                "关闭断开的标签页"@,
                exists|k: int|
                    0 <= k < self.workspace.tabs.len() && (
                    #[trigger] self.workspace.tabs[k]).ended(),
                ActionModel::CloseDisconnectedTabs,
            ),
        ]
    }
}

/// The menu of a saved SSH connection.
pub fn remote_menu(i: usize, p: &RemoteProfile) -> (out: Vec<Entry>)
    ensures
        entry_models(out@) == seq![
            plain("连接 SSH"@, true, ActionModel::New(KindModel::Ssh(p@))),
            plain("编辑 / 跳板机 / 转发"@, true, ActionModel::Edit(i)),
            plain("复制连接"@, true, ActionModel::Duplicate(i)),
            plain("删除连接"@, true, ActionModel::Remove(i)),
        ],
{
    let mut out: Vec<Entry> = none();
    self::add(&mut out, line("连接 SSH", true, Action::New(SessionKind::Ssh(p.duplicate()))));
    self::add(&mut out, line("编辑 / 跳板机 / 转发", true, Action::Edit(i)));
    self::add(&mut out, line("复制连接", true, Action::Duplicate(i)));
    self::add(&mut out, line("删除连接", true, Action::Remove(i)));
    out
}

/// The menu of a saved serial connection.
pub fn serial_menu(i: usize, p: &SerialProfile) -> (out: Vec<Entry>)
    ensures
        entry_models(out@) == seq![
            plain("连接串口"@, true, ActionModel::New(KindModel::Serial(p@))),
            plain("编辑串口连接"@, true, ActionModel::EditSerial(i)),
            plain("复制连接"@, true, ActionModel::DuplicateSerial(i)),
            plain("删除连接"@, true, ActionModel::RemoveSerial(i)),
        ],
{
    let mut out: Vec<Entry> = none();
    self::add(
        &mut out,
        line("连接串口", true, Action::New(SessionKind::Serial(p.duplicate()))),
    );
    self::add(&mut out, line("编辑串口连接", true, Action::EditSerial(i)));
    self::add(&mut out, line("复制连接", true, Action::DuplicateSerial(i)));
    self::add(&mut out, line("删除连接", true, Action::RemoveSerial(i)));
    out
}

/// The menu of an imported host.
pub fn imported_menu(p: &RemoteProfile) -> (out: Vec<Entry>)
    ensures
        entry_models(out@) == seq![
            plain("连接 SSH"@, true, ActionModel::New(KindModel::Ssh(p@))),
            plain("保存到连接"@, true, ActionModel::AdoptSshConfig(p@)),
        ],
{
    let mut out: Vec<Entry> = none();
    self::add(&mut out, line("连接 SSH", true, Action::New(SessionKind::Ssh(p.duplicate()))));
    self::add(&mut out, line("保存到连接", true, Action::AdoptSshConfig(p.duplicate())));
    out
}

/// A local shell that can be started.
#[derive(Debug, PartialEq, Eq)]
pub struct Shell {
    /// What it is called.
    pub label: String,
    /// Its name or path.
    pub value: String,
}

/// A session that a fresh split can hold.
#[derive(Debug)]
pub struct SplitChoice {
    pub text: String,
    pub kind: SessionKind,
}

/// A session that a fresh split can hold, as a value.
#[verifier::ext_equal]
pub struct SplitChoiceModel {
    pub text: Seq<char>,
    pub kind: KindModel,
}

impl View for SplitChoice {
    type V = SplitChoiceModel;

    open spec fn view(&self) -> SplitChoiceModel {
        SplitChoiceModel { text: self.text@, kind: self.kind@ }
    }
}

/// The sessions that a fresh split can hold, as values.
pub open spec fn choice_models(list: Seq<SplitChoice>) -> Seq<SplitChoiceModel> {
    list.map_values(|c: SplitChoice| c@)
}

/// The local shells that a fresh split can hold.
pub open spec fn shell_choices(shells: Seq<Shell>) -> Seq<SplitChoiceModel> {
    shells.map_values(
        |s: Shell|
            SplitChoiceModel { text: "本地 "@ + s.label@, kind: KindModel::Local(s.value@) },
    )
}

/// The hosts that a fresh split can connect to.
pub open spec fn remote_choices(list: Seq<RemoteModel>) -> Seq<SplitChoiceModel> {
    list.map_values(
        |p: RemoteModel|
            SplitChoiceModel { text: "SSH · "@ + remote_label(p), kind: KindModel::Ssh(p) },
    )
}

/// The serial ports that a fresh split can open.
pub open spec fn serial_choices(list: Seq<SerialModel>) -> Seq<SplitChoiceModel> {
    list.map_values(
        |p: SerialModel|
            SplitChoiceModel { text: "串口 · "@ + serial_label(p), kind: KindModel::Serial(p) },
    )
}

fn named(prefix: &str, name: &str) -> (out: String)
    ensures
        out@ == prefix@ + name@,
{
    let mut out = text_copy(prefix);
    out.append(name);
    out
}

impl App {
    /// The sessions that a fresh split can hold: the local shells, the saved
    /// hosts and the saved serial ports, in that order.
    pub fn split_choices(&self, shells: &Vec<Shell>) -> (out: Vec<SplitChoice>)
        ensures
            choice_models(out@) == shell_choices(shells@) + remote_choices(self@.settings.profiles)
                + serial_choices(self@.settings.serial_profiles),
    {
        let mut out: Vec<SplitChoice> = Vec::new();
        let n: usize = shells.len();
        for i in 0..n
            invariant
                n == shells@.len(),
                out@.len() == i,
                forall|k: int|
                    0 <= k < i ==> (#[trigger] out@[k])@ == shell_choices(shells@)[k],
        {
            let s: &Shell = &shells[i];
            let c = SplitChoice {
                text: named("本地 ", s.label.as_str()),
                kind: SessionKind::Local(text_copy(s.value.as_str())),
            };
            assert(c@ =~= shell_choices(shells@)[i as int]);
            out.push(c);
        }
        let ghost first = choice_models(out@);
        assert(first =~= shell_choices(shells@));
        let m: usize = self.settings.profiles.len();
        let ghost profiles = self@.settings.profiles;
        assert(remote_choices(profiles).take(0) =~= Seq::empty());
        assert(choice_models(out@) =~= first + remote_choices(profiles).take(0));
        for i in 0..m
            invariant
                m == self.settings.profiles@.len(),
                profiles == remote_models(self.settings.profiles@),
                choice_models(out@) == first + remote_choices(profiles).take(i as int),
        {
            let p: &RemoteProfile = &self.settings.profiles[i];
            let ghost before = choice_models(out@);
            let c = SplitChoice {
                text: named("SSH · ", p.label().as_str()),
                kind: SessionKind::Ssh(p.duplicate()),
            };
            assert(profiles[i as int] == p@);
            assert(c@ =~= remote_choices(profiles)[i as int]);
            out.push(c);
            assert(choice_models(out@) =~= before.push(c@));
            assert(remote_choices(profiles).take(i + 1) =~= remote_choices(profiles).take(
                i as int,
            ).push(c@));
            assert(choice_models(out@) =~= first + remote_choices(profiles).take(i + 1));
        }
        assert(remote_choices(profiles).take(m as int) =~= remote_choices(profiles));
        let ghost second = choice_models(out@);
        let q: usize = self.settings.serial_profiles.len();
        let ghost serials = self@.settings.serial_profiles;
        assert(serial_choices(serials).take(0) =~= Seq::empty());
        assert(choice_models(out@) =~= second + serial_choices(serials).take(0));
        for i in 0..q
            invariant
                q == self.settings.serial_profiles@.len(),
                serials == serial_models(self.settings.serial_profiles@),
                choice_models(out@) == second + serial_choices(serials).take(i as int),
        {
            let p: &SerialProfile = &self.settings.serial_profiles[i];
            let ghost before = choice_models(out@);
            let c = SplitChoice {
                text: named("串口 · ", p.label().as_str()),
                kind: SessionKind::Serial(p.duplicate()),
            };
            assert(serials[i as int] == p@);
            assert(c@ =~= serial_choices(serials)[i as int]);
            out.push(c);
            assert(choice_models(out@) =~= before.push(c@));
            assert(serial_choices(serials).take(i + 1) =~= serial_choices(serials).take(
                i as int,
            ).push(c@));
            assert(choice_models(out@) =~= second + serial_choices(serials).take(i + 1));
        }
        assert(serial_choices(serials).take(q as int) =~= serial_choices(serials));
        out
    }
}

/// Only what the state of the focused session can do is offered: a session is
/// never offered to be disconnected where it is not live.
pub proof fn law_only_live_sessions_can_be_disconnected(app: AppModel, macos: bool, k: int)
    requires
        0 <= k < app.session_entries(macos).len(),
        app.session_entries(macos)[k].choice == (ChoiceModel::Do {
            action: ActionModel::Disconnect,
        }),
    ensures
        app.focused_live(),
{
}

/// What the first part of the main menu does, entry by entry.
pub proof fn law_what_the_main_menu_opens(shell: Seq<char>, port: Seq<char>, macos: bool)
    ensures
        ({
            let list = opening_entries(shell, port, macos);
            &&& list.len() == 9
            &&& forall|k: int| 0 <= k < 9 ==> (#[trigger] list[k]).enabled && list[k].icon is Some
            &&& list[0].text == "新建终端"@ && list[0].choice == (ChoiceModel::Do {
                action: ActionModel::New(KindModel::Local(shell)),
            })
            &&& list[1].text == "新建窗口"@ && list[1].choice == (ChoiceModel::Do {
                action: ActionModel::NewWindow,
            })
            &&& list[2].text == "新建 SSH 连接"@ && list[2].choice == (ChoiceModel::Do {
                action: ActionModel::Remote,
            })
            &&& list[3].text == "连接串口"@ && list[3].choice == (ChoiceModel::Do {
                action: ActionModel::SerialPicker,
            })
            &&& list[4].text == "串口占用排查"@ && list[4].choice == (ChoiceModel::Do {
                action: ActionModel::FindPortOwner(port),
            })
            &&& list[5].text == "文件与传输队列"@ && list[5].choice == (ChoiceModel::Do {
                action: ActionModel::Files,
            })
            &&& list[6].text == "左右分屏"@ && list[6].choice == (ChoiceModel::Do {
                action: ActionModel::Split(Axis::Horizontal),
            })
            &&& list[7].text == "上下分屏"@ && list[7].choice == (ChoiceModel::Do {
                action: ActionModel::Split(Axis::Vertical),
            })
            &&& list[8].text == "关闭窗格"@ && list[8].choice == (ChoiceModel::Do {
                action: ActionModel::ClosePane,
            })
        }),
{
}

/// The keys that the main menu shows for its entries, and the entries without one.
pub proof fn law_the_keys_in_the_main_menu(shell: Seq<char>, port: Seq<char>, macos: bool)
    ensures
        ({
            let list = opening_entries(shell, port, macos);
            &&& list[0].shortcut == Some(accel_text("Ctrl+Shift+T"@, macos))
            &&& list[6].shortcut == Some(accel_text("Ctrl+Shift+D"@, macos))
            &&& list[7].shortcut == Some(accel_text("Ctrl+Shift+E"@, macos))
            &&& list[8].shortcut == Some(accel_text("Ctrl+Shift+W"@, macos))
            &&& forall|k: int| 1 <= k <= 5 ==> (#[trigger] list[k]).shortcut is None
        }),
        ({
            let list = closing_entries(macos);
            &&& list[2].shortcut == Some(accel_text("Ctrl+,"@, macos))
            &&& forall|k: int|
                0 <= k < 5 && k != 2 ==> (#[trigger] list[k]).shortcut is None
        }),
{
}

/// What the last part of the main menu does, entry by entry.
pub proof fn law_what_the_main_menu_ends_with(macos: bool)
    ensures
        ({
            let list = closing_entries(macos);
            &&& list.len() == 5
            &&& forall|k: int| 0 <= k < 5 ==> (#[trigger] list[k]).enabled && list[k].icon is Some
            &&& list[0].text == "连接分组管理"@ && list[0].choice is OpenGroups
            &&& list[1].text == "服务器工具箱"@ && list[1].choice == (ChoiceModel::Do {
                action: ActionModel::Toolbox,
            })
            &&& list[2].text == "偏好设置"@ && list[2].choice is OpenSettings
            &&& list[3].text == "快捷键 / 关于"@ && list[3].choice is OpenHelp
            &&& list[4].text == "检查更新"@ && list[4].choice == (ChoiceModel::Do {
                action: ActionModel::CheckUpdates,
            })
        }),
{
}

/// A live session can be ended, one that is not live can be connected again, and a live one
/// of this machine can be both ended and started anew. The search is always offered, and
/// last.
pub proof fn law_what_can_be_done_with_a_session(app: AppModel, macos: bool)
    ensures
        ({
            let list = app.session_entries(macos);
            let live = app.workspace.current() matches Some(pane) && pane.link
                == SessionStatus::Live;
            let remote = app.workspace.current() matches Some(pane) && pane.remote;
            let ends = list[0].choice == (ChoiceModel::Do { action: ActionModel::Disconnect })
                && list[0].text == "断开当前连接"@ && list[0].shortcut == Some(
                alt_text("C"@, macos),
            );
            let again = list[list.len() - 2].choice == (ChoiceModel::Do {
                action: ActionModel::Restart,
            }) && list[list.len() - 2].shortcut == Some(alt_text("R"@, macos));
            &&& list.last().choice is OpenSearch && list.last().text == "查找历史"@
            &&& list.last().shortcut == Some(accel_text("Ctrl+Shift+F"@, macos))
            &&& live && remote ==> list.len() == 2 && ends
            &&& live && !remote ==> list.len() == 3 && ends && again && list[1].text
                == "重新连接 / 重启"@
            &&& !live ==> list.len() == 2 && again && list[0].text == "重新连接"@
            &&& forall|k: int| 0 <= k < list.len() ==> (#[trigger] list[k]).enabled
        }),
{
}

/// An entry that opens a window opens that one and no other, and an action is left to be
/// carried out.
pub proof fn law_what_a_menu_choice_opens(app: AppModel, action: ActionModel)
    ensures
        app.chose(ChoiceModel::Do { action }) == app,
        app.chose(ChoiceModel::OpenSearch).search.open,
        app.chose(ChoiceModel::OpenSearch).search.focus,
        app.chose(ChoiceModel::OpenSearch).search.hits == app.search.hits,
        app.chose(ChoiceModel::OpenSearch).windows == app.windows,
        app.chose(ChoiceModel::OpenGroups) == (AppModel {
            windows: crate::app::Windows { groups: true, ..app.windows },
            ..app
        }),
        app.chose(ChoiceModel::OpenSettings) == (AppModel {
            windows: crate::app::Windows { settings: true, ..app.windows },
            ..app
        }),
        app.chose(ChoiceModel::OpenHelp) == (AppModel {
            windows: crate::app::Windows { help: true, ..app.windows },
            ..app
        }),
{
}

/// The menu of a tab acts on that tab. The others can be closed where there are any, and
/// those that have ended where there is one.
pub proof fn law_what_the_menu_of_a_tab_does(app: AppModel, i: usize, k: int)
    ensures
        ({
            let list = app.tab_entries(i);
            &&& list.len() == 6
            &&& list[0].choice == (ChoiceModel::Do {
                action: ActionModel::Split(Axis::Horizontal),
            }) && list[0].text == "左右分屏"@
            &&& list[1].choice == (ChoiceModel::Do { action: ActionModel::Split(Axis::Vertical) })
                && list[1].text == "上下分屏"@
            &&& list[2].choice == (ChoiceModel::Do { action: ActionModel::DuplicateSession(i) })
                && list[2].text == "复制会话"@
            &&& list[3].choice == (ChoiceModel::Do { action: ActionModel::CloseTab(i) })
                && list[3].text == "关闭标签"@
            &&& list[4].choice == (ChoiceModel::Do { action: ActionModel::CloseOtherTabs(i) })
                && list[4].text == "关闭其它标签页"@
            &&& list[5].choice == (ChoiceModel::Do { action: ActionModel::CloseDisconnectedTabs })
                && list[5].text == "关闭断开的标签页"@
            &&& list[0].enabled && list[1].enabled && list[2].enabled && list[3].enabled
            &&& list[4].enabled == (app.workspace.tabs.len() >= 2)
            &&& 0 <= k < app.workspace.tabs.len() && app.workspace.tabs[k].ended()
                ==> list[5].enabled
            &&& list[5].enabled ==> exists|j: int|
                0 <= j < app.workspace.tabs.len() && (#[trigger] app.workspace.tabs[j]).ended()
        }),
{
}

/// A split is offered every shell, every saved host and every saved serial port, each under
/// its own name.
pub proof fn law_what_a_split_is_offered(
    shells: Seq<Shell>,
    hosts: Seq<RemoteModel>,
    serials: Seq<SerialModel>,
    i: int,
)
    ensures
        shell_choices(shells).len() == shells.len(),
        remote_choices(hosts).len() == hosts.len(),
        serial_choices(serials).len() == serials.len(),
        0 <= i < shells.len() ==> shell_choices(shells)[i].kind == KindModel::Local(
            shells[i].value@,
        ) && shell_choices(shells)[i].text == "本地 "@ + shells[i].label@,
        0 <= i < hosts.len() ==> remote_choices(hosts)[i].kind == KindModel::Ssh(hosts[i])
            && remote_choices(hosts)[i].text == "SSH · "@ + remote_label(hosts[i]),
        0 <= i < serials.len() ==> serial_choices(serials)[i].kind == KindModel::Serial(serials[i])
            && serial_choices(serials)[i].text == "串口 · "@ + serial_label(serials[i]),
{
}

/// The model of an entry holds all that is shown of it and what it does.
pub proof fn law_models_hold_the_entry(
    e: Entry,
    c: SplitChoice,
    list: Seq<Entry>,
    choices: Seq<SplitChoice>,
    i: int,
)
    ensures
        e@.icon == e.icon && e@.text == e.text@ && e@.enabled == e.enabled,
        e.shortcut is None ==> e@.shortcut is None,
        e.shortcut matches Some(text) ==> e@.shortcut == Some(text@),
        e.choice matches Choice::Do { action } ==> e@.choice == (ChoiceModel::Do {
            action: action@,
        }),
        e.choice is OpenSearch ==> e@.choice is OpenSearch,
        e.choice is OpenGroups ==> e@.choice is OpenGroups,
        e.choice is OpenSettings ==> e@.choice is OpenSettings,
        e.choice is OpenHelp ==> e@.choice is OpenHelp,
        c@.text == c.text@ && c@.kind == c.kind@,
        entry_models(list).len() == list.len() && choice_models(choices).len() == choices.len(),
        0 <= i < list.len() ==> entry_models(list)[i] == list[i]@,
        0 <= i < choices.len() ==> choice_models(choices)[i] == choices[i]@,
{
}

} // verus!
