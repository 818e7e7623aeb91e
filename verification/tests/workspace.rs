//! The tabs, the actions on them, and what the window shows.

use g_terminal::app::actions::alt_accel;
use g_terminal::app::dialogs::{
    enter_submits, port_label, port_owner_default, SerialPicker, SerialPortInfo,
};
use g_terminal::app::exit::CloseAnswer;
use g_terminal::app::help::help_keys;
use g_terminal::app::shortcuts::FontStep;
use g_terminal::app::sidebar::{
    group_heading, remote_hint, reveals, serial_hint, shell_hint, SidebarButton, SidebarMode,
};
use g_terminal::app::status::{
    channel, pane_summary, run_state, toast_expired, Channel, TOAST_LIFETIME,
};
use g_terminal::app::titlebar::{
    accel, resize_direction, shows_bell, strip_label, tab_hint, window_title, ResizeDirection,
    RestartLabel,
};
use g_terminal::app::transfer::{
    abort_transfer, begin_terminal_zmodem, drop_text, ensure_files, files_refusal,
    terminal_refusal, FilesState, FilesStep,
};
use g_terminal::app::{Action, App, Effect, ProfileKind};
use g_terminal::config::profile::{RemoteProfile, SerialProfile};
use g_terminal::config::settings::Settings;
use g_terminal::editing::{ime_composing, track_ime};
use g_terminal::input::{ImeEvent, InputEvent, Key, Modifiers};
use g_terminal::layout::Axis;
use g_terminal::session::{announce, failure_line, kind_label, SessionKind, SessionStatus};

/// Carries out what an action asked for, as if every session could be started.
fn carry_out(app: &mut App, effect: Effect) {
    match effect {
        Effect::Connect { tab, pane, kind, .. } | Effect::Reconnect { tab, pane, kind, .. } => {
            app.session_started(tab, pane, kind);
        }
        Effect::SplitSession { axis, kind, remote } => app.split_ready(axis, kind, remote),
        Effect::Exchange { tab, pane, kind } => app.session_exchanged(tab, pane, kind),
        _ => {}
    }
}

fn run(app: &mut App, action: Action) {
    let effect = app.execute(action, false);
    carry_out(app, effect);
}

fn started(settings: Settings) -> App {
    let (mut app, effect) = App::new(settings, None, true);
    carry_out(&mut app, effect);
    app
}

fn app() -> App {
    started(Settings::new(false))
}

fn com199() -> SessionKind {
    SessionKind::Serial(SerialProfile {
        port: "COM199".into(),
        ..Default::default()
    })
}

fn key(key: Key, mods: Modifiers) -> InputEvent {
    InputEvent::Key {
        key,
        pressed: true,
        mods,
    }
}

fn alt() -> Modifiers {
    Modifiers {
        alt: true,
        ..Modifiers::none()
    }
}

fn command_shift() -> Modifiers {
    Modifiers {
        ctrl: true,
        command: true,
        shift: true,
        ..Modifiers::none()
    }
}

/// Presses keys, and carries out what they ask for.
fn press(app: &mut App, events: Vec<InputEvent>) -> Vec<bool> {
    let out = app.shortcuts(&events);
    if let Some(action) = out.action {
        run(app, action);
    }
    out.keep
}

fn workspace_roundtrip() {
    let mut app = app();
    run(&mut app, Action::Split(Axis::Horizontal));
    run(&mut app, Action::Split(Axis::Vertical));
    assert_eq!(app.workspace.tabs[0].panes.len(), 3);
    assert!(app.workspace.tabs[0].layout.valid(3));
    app.keep_tabs();
    let config = format!("{:?}", app.settings);
    assert!(!config.contains("password"));
    let restored = started(app.settings);
    assert_eq!(restored.workspace.tabs[0].panes.len(), 3);
    assert!(restored.workspace.tabs[0].layout.valid(3));
}

#[test]
fn app_nested_workspace_roundtrips_without_persisting_authentication() {
    workspace_roundtrip();
}

#[test]
fn tests_nested_workspace_roundtrips_without_persisting_authentication() {
    workspace_roundtrip();
}

#[test]
fn restored_panes_are_not_connected() {
    let mut app = app();
    run(&mut app, Action::Split(Axis::Vertical));
    app.keep_tabs();
    let (restored, effect) = App::new(app.settings, None, true);
    assert!(matches!(effect, Effect::Nothing));
    assert!(!restored.workspace.has_live_sessions());
    for pane in &restored.workspace.tabs[0].panes {
        assert_eq!(pane.link, SessionStatus::Detached);
        assert!(!pane.pending);
    }
    let (fresh, effect) = App::new(restored.settings, None, false);
    assert_eq!(fresh.workspace.tabs.len(), 1);
    assert!(matches!(effect, Effect::Connect { .. }));
}

#[test]
fn keys_open_split_search_and_close() {
    let mut app = app();
    let mods = command_shift();
    press(&mut app, vec![key(Key::T, mods)]);
    assert_eq!(app.workspace.tabs.len(), 2);
    press(&mut app, vec![key(Key::D, mods)]);
    assert_eq!(app.workspace.tabs[1].panes.len(), 2);
    assert_eq!(app.workspace.tabs[1].focused, 1);
    press(&mut app, vec![key(Key::F, mods)]);
    assert!(app.search.open);
    press(&mut app, vec![key(Key::Escape, Modifiers::none())]);
    assert!(!app.search.open);
    press(&mut app, vec![key(Key::W, mods)]);
    assert_eq!(app.workspace.tabs[1].panes.len(), 1);
    press(&mut app, vec![key(Key::W, mods)]);
    assert_eq!(app.workspace.tabs.len(), 1);
    assert!(app.error.is_none(), "{:?}", app.error);
}

#[test]
fn keys_that_are_no_shortcut_reach_the_session() {
    let mut app = app();
    let keep = press(
        &mut app,
        vec![
            key(Key::A, Modifiers::none()),
            InputEvent::Text("a".into()),
            InputEvent::Key {
                key: Key::T,
                pressed: false,
                mods: command_shift(),
            },
        ],
    );
    assert_eq!(keep, vec![true, true, true]);
    app.windows.settings = true;
    let keep = press(&mut app, vec![key(Key::T, command_shift())]);
    assert_eq!(keep, vec![true]);
    assert_eq!(app.workspace.tabs.len(), 1);
}

#[test]
fn the_font_follows_its_keys() {
    let mut app = app();
    let mods = Modifiers {
        ctrl: true,
        command: true,
        ..Modifiers::none()
    };
    let out = app.shortcuts(&vec![
        key(Key::Plus, mods),
        key(Key::Minus, mods),
        key(Key::Num0, mods),
    ]);
    assert_eq!(
        out.steps,
        vec![FontStep::Larger, FontStep::Smaller, FontStep::Reset]
    );
    assert_eq!(out.keep, vec![false, false, false]);
}

fn spinner() {
    let mut app = app();
    assert!(!app.workspace.connecting());
    let (tab, pane) = app.workspace.open_connecting_tab(com199());
    assert!(app.workspace.connecting(), "a pending pane must spin");
    app.session_failed(tab, pane, com199());
    assert!(
        !app.workspace.connecting(),
        "a settled attempt must stop the spinner"
    );
}

#[test]
fn app_the_spinner_runs_only_while_a_connection_is_pending() {
    spinner();
}

#[test]
fn tests_the_spinner_runs_only_while_a_connection_is_pending() {
    spinner();
}

fn background_tab() {
    let mut app = app();
    app.workspace.open_connecting_tab(com199());
    assert_eq!(app.workspace.tabs.len(), 2);
    assert_eq!(app.workspace.active, 1, "the new tab is the active one");
    app.workspace.mark_active_seen();
    assert!(
        !app.workspace.tabs[1].updated(true),
        "the active tab is clean"
    );

    // The first tab reads something while it is off screen.
    let (tab, pane) = (app.workspace.tabs[0].id, app.workspace.tabs[0].panes[0].id);
    app.workspace.hear(tab, pane, SessionStatus::Live, 64, false);
    assert!(
        app.workspace.tabs[0].updated(false),
        "new output must mark it"
    );

    app.workspace.active = 0;
    app.workspace.mark_active_seen();
    assert!(
        !app.workspace.tabs[0].updated(true),
        "looking at the tab must clear the mark"
    );
    assert_eq!(
        app.workspace.tabs[0].seen_output,
        app.workspace.tabs[0].output()
    );
}

#[test]
fn app_a_background_tab_is_marked_until_it_is_looked_at() {
    background_tab();
}

#[test]
fn tests_a_background_tab_is_marked_until_it_is_looked_at() {
    background_tab();
}

#[test]
fn closing_asks_first_while_a_session_is_live() {
    let mut app = app();
    app.settings.confirm_on_exit = true;
    assert!(app.workspace.has_live_sessions(), "the startup shell is live");

    assert!(!app.request_exit(), "the close must be held back");
    assert!(app.confirm_exit, "the dialog must be armed");

    app.exit_confirmed = true;
    assert!(app.request_exit(), "confirming must close");
}

#[test]
fn closing_does_not_ask_when_nothing_is_connected() {
    let mut app = app();
    app.settings.confirm_on_exit = true;
    run(&mut app, Action::Disconnect);
    assert!(!app.workspace.has_live_sessions());
    assert!(app.request_exit(), "nothing live means it closes");
    assert!(!app.confirm_exit, "no dialog for a detached session");
}

#[test]
fn a_platform_close_is_held_back_once() {
    let mut app = app();
    assert_eq!(app.answer_close(), CloseAnswer::Cancel);
    assert!(app.confirm_exit);
    app.cancel_close();
    assert!(!app.confirm_exit);
    assert_eq!(app.answer_close(), CloseAnswer::Cancel);
    app.confirm_close();
    assert!(app.exit_confirmed);
}

#[test]
fn enter_does_not_save_a_form_while_a_candidate_list_is_open() {
    let mut app = app();
    run(&mut app, Action::Remote);
    assert!(app.form.open);

    // Composing, then Enter to commit it: the form must stay put.
    let events = vec![
        InputEvent::Ime(ImeEvent::Preedit("lianjie".into())),
        key(Key::Enter, Modifiers::none()),
    ];
    let composing = ime_composing(false, &events);
    assert!(!enter_submits(true, false, composing));
    let remembered = track_ime(false, &events);
    assert!(app.error.is_none(), "{:?}", app.error);
    assert!(app.form.open, "the form must still be open");

    // With the composition committed, Enter saves as usual.
    let remembered = track_ime(
        remembered,
        &vec![InputEvent::Ime(ImeEvent::Commit("连接".into()))],
    );
    app.form.remote.host = "example.com".into();
    let events = vec![key(Key::Enter, Modifiers::none())];
    let composing = ime_composing(remembered, &events);
    assert!(enter_submits(true, false, composing));
    app.save_form(false, "COM3");
    assert!(!app.form.open, "a plain Enter still saves");
    assert_eq!(app.settings.profiles.len(), 1);
}

#[test]
fn a_form_with_a_mistake_stays_open_and_says_why() {
    let mut app = app();
    run(&mut app, Action::Remote);
    app.form.remote.host = "a b".into();
    app.save_form(false, "COM3");
    assert!(app.form.open);
    assert_eq!(
        app.error.as_deref(),
        Some("请输入有效的主机名或 IP 地址（不能包含空格或命令参数）")
    );
    assert!(app.settings.profiles.is_empty());
}

fn toolbox() {
    let mut app = app();
    run(&mut app, Action::Toolbox);
    assert!(!app.windows.toolbox);
    assert_eq!(
        app.error.as_deref(),
        Some("服务器工具箱仅用于已连接的 SSH 会话")
    );
}

#[test]
fn app_the_toolbox_refuses_a_session_that_is_not_ssh() {
    toolbox();
}

#[test]
fn tests_the_toolbox_refuses_a_session_that_is_not_ssh() {
    toolbox();
}

fn disconnect_shortcut() {
    let mut app = app();
    let out = app.shortcuts(&vec![key(Key::C, alt())]);
    let effect = app.execute(out.action.unwrap(), false);
    assert_eq!(app.workspace.tabs.len(), 1, "断开 must not close the pane");
    assert_eq!(
        app.workspace.tabs[0].panes[0].link,
        SessionStatus::Detached
    );
    match effect {
        Effect::Detach { note, .. } => assert!(note.contains("已断开"), "{note}"),
        other => panic!("{other:?}"),
    }

    press(&mut app, vec![key(Key::R, alt())]);
    assert!(app.error.is_none(), "{:?}", app.error);
    assert_eq!(app.workspace.tabs[0].panes[0].link, SessionStatus::Live);
}

#[test]
fn app_the_disconnect_shortcut_keeps_the_pane_and_reconnects() {
    disconnect_shortcut();
}

#[test]
fn tests_the_disconnect_shortcut_keeps_the_pane_and_reconnects() {
    disconnect_shortcut();
}

fn shortcut_text() {
    let mut app = app();
    run(&mut app, Action::Disconnect);
    assert_eq!(
        app.workspace.tabs[0].panes[0].link,
        SessionStatus::Detached
    );
    let keep = press(
        &mut app,
        vec![key(Key::R, alt()), InputEvent::Text("r".into())],
    );
    assert_eq!(keep, vec![false, false], "the shortcut's text was typed");
    assert!(app.error.is_none(), "{:?}", app.error);
    assert_eq!(
        app.workspace.tabs[0].panes[0].link,
        SessionStatus::Live,
        "Alt+R must still reconnect"
    );
}

#[test]
fn app_a_shortcut_does_not_leak_its_text_into_the_session() {
    shortcut_text();
}

#[test]
fn tests_a_shortcut_does_not_leak_its_text_into_the_session() {
    shortcut_text();
}

fn toast() {
    let mut app = app();
    app.notify("已复制 3 个字符");
    assert_eq!(app.notice.as_deref(), Some("已复制 3 个字符"));
    assert!(!toast_expired(0), "an unexpired toast must stay");
    assert!(
        toast_expired(TOAST_LIFETIME + 1000),
        "an expired toast must be dropped"
    );
    assert!(!toast_expired(2499));
}

#[test]
fn app_a_toast_stays_for_its_lifetime_then_goes() {
    toast();
}

#[test]
fn tests_a_toast_stays_for_its_lifetime_then_goes() {
    toast();
}

fn failed_connection() {
    let mut app = app();
    let before = app.workspace.tabs.len();
    let effect = app.execute(Action::New(com199()), false);
    assert_eq!(
        app.workspace.tabs.len(),
        before + 1,
        "the tab must exist before the connect attempt"
    );
    let mut text = String::new();
    match effect {
        Effect::Connect { tab, pane, kind, target } => {
            let said = announce("", &target);
            assert!(!said.separator);
            text.push_str(&said.line.unwrap());
            text.push_str(&failure_line("no such port"));
            let port = app.session_failed(tab, pane, kind);
            assert_eq!(port.as_deref(), Some("COM199"));
        }
        other => panic!("{other:?}"),
    }
    assert!(text.contains("connect to COM199"), "{text}");
    assert!(text.contains("connect failed"), "{text}");
    assert!(
        app.error.is_none(),
        "a connection failure belongs to its own console: {:?}",
        app.error
    );
}

#[test]
fn app_a_failed_connection_reports_in_its_own_console() {
    failed_connection();
}

#[test]
fn tests_a_failed_connection_reports_in_its_own_console() {
    failed_connection();
}

#[test]
fn announcements_are_kept_apart_from_earlier_output() {
    let said = announce("\n $ exit\n", &Some("root@h:22".into()));
    assert!(said.separator);
    assert_eq!(said.line.as_deref(), Some("connect to root@h:22"));
    let quiet = announce(" \n\t", &None);
    assert!(!quiet.separator);
    assert_eq!(quiet.line, None);
    assert_eq!(failure_line("x"), "[错误] connect failed: x");
}

fn serial_form() {
    let mut app = app();
    let effect = app.execute(Action::SerialPicker, false);
    assert!(matches!(effect, Effect::OpenPicker));

    run(&mut app, Action::Remote);
    app.form.kind = ProfileKind::Serial;
    assert!(app.form.open);

    app.settings.serial_profiles.push(SerialProfile {
        port: "COM199".into(),
        ..Default::default()
    });
    run(&mut app, Action::EditSerial(0));
    assert_eq!(app.form.kind, ProfileKind::Serial);
    assert_eq!(app.form.serial.port, "COM199");

    run(&mut app, Action::RemoveSerial(0));
    assert!(app.settings.serial_profiles.is_empty());
    assert!(app.error.is_none(), "{:?}", app.error);
}

#[test]
fn app_serial_picker_and_form_open_without_touching_a_device() {
    serial_form();
}

#[test]
fn tests_serial_picker_and_form_open_without_touching_a_device() {
    serial_form();
}

#[test]
fn the_default_port_follows_the_serial_picker() {
    assert_eq!(port_owner_default(&None, &vec![]), "");
    let ports = vec![SerialPortInfo {
        name: "COM7".into(),
        bluetooth: false,
    }];
    assert_eq!(port_owner_default(&None, &ports), "COM7");
    let picker = Some(SerialPicker {
        ports: Vec::new(),
        port: "COM9".into(),
        baud: 9600,
    });
    assert_eq!(port_owner_default(&picker, &ports), "COM9");
}

#[test]
fn the_picker_keeps_a_port_that_is_still_there() {
    let port = |name: &str, bluetooth: bool| SerialPortInfo {
        name: name.into(),
        bluetooth,
    };
    let mut picker = SerialPicker::new(vec![port("COM1", false), port("COM2", true)]);
    assert_eq!(picker.port, "COM1");
    picker.port = "COM2".into();
    picker.refresh(vec![port("COM2", true)]);
    assert_eq!(picker.port, "COM2");
    assert_eq!(picker.connection().port, "COM2");
    assert_ne!(port_label(&port("COM2", true)), port_label(&port("COM2", false)));
}

#[test]
fn auto_hidden_sidebar_reveals_on_the_left_strip() {
    let mut settings = Settings::new(false);
    settings.auto_hide_sidebar = true;
    let app = started(settings);
    assert_eq!(app.sidebar_mode(), SidebarMode::Floating);
    assert!(!reveals(false, false, false, false), "the bar must start hidden");
    assert!(
        reveals(true, false, false, false),
        "the left strip must reveal the bar"
    );
    assert!(
        !reveals(false, false, true, false),
        "leaving the bar and the strip must collapse it"
    );
}

#[test]
fn the_sidebar_button_pins_hides_and_shows() {
    let mut app = app();
    assert_eq!(app.sidebar_mode(), SidebarMode::Docked);
    assert_eq!(app.sidebar_button(), SidebarButton::Hide);
    app.toggle_sidebar();
    assert_eq!(app.sidebar_mode(), SidebarMode::Hidden);
    assert_eq!(app.sidebar_button().text(), "展开导航栏");
    app.toggle_sidebar();
    assert_eq!(app.sidebar_mode(), SidebarMode::Docked);
    app.settings.auto_hide_sidebar = true;
    assert_eq!(app.sidebar_button(), SidebarButton::Pin);
    app.toggle_sidebar();
    assert_eq!(app.sidebar_mode(), SidebarMode::Docked);
    assert_eq!(app.sidebar_button(), SidebarButton::Unpin);
    assert!(reveals(false, true, false, false));
    assert!(reveals(false, false, true, true));
}

fn window_edge() {
    // Just inside the left edge.
    assert_eq!(
        resize_direction(true, false, false, false),
        Some(ResizeDirection::West)
    );
    // Well clear of every edge.
    assert_eq!(resize_direction(false, false, false, false), None);
    assert_eq!(
        resize_direction(false, true, false, true),
        Some(ResizeDirection::SouthEast)
    );
    assert_eq!(
        resize_direction(true, true, true, true),
        Some(ResizeDirection::NorthWest)
    );
}

#[test]
fn app_pressing_a_window_edge_asks_the_platform_to_resize() {
    window_edge();
}

#[test]
fn tests_pressing_a_window_edge_asks_the_platform_to_resize() {
    window_edge();
}

#[test]
fn labels_of_the_title_bar() {
    assert_eq!(accel("Ctrl+Shift+T", true), "Cmd+Shift+T");
    assert_eq!(accel("Ctrl+Shift+T", false), "Ctrl+Shift+T");
    assert_ne!(alt_accel("R", true), alt_accel("R", false));
    assert_eq!(strip_label("", "a label that is too long"), "a label that is to");
    assert_eq!(strip_label("vim", "shell"), "vim");
    assert_eq!(tab_hint("web", 2), "web · 2 个窗格 · 中键关闭");
    assert_eq!(window_title(&None), "G-Terminal");
    assert_eq!(window_title(&Some(String::new())), "G-Terminal");
    assert!(window_title(&Some("vim".into())).starts_with("vim "));
    assert_eq!(RestartLabel::Reconnect.text(), "重新连接");
    let mut app = app();
    let menu = app.session_menu();
    assert!(menu.disconnect);
    assert_eq!(menu.restart, Some(RestartLabel::Restart));
    assert!(!app.any_tab_ended());
    let (tab, pane) = (app.workspace.tabs[0].id, app.workspace.tabs[0].panes[0].id);
    app.workspace.hear(tab, pane, SessionStatus::Live, 0, true);
    assert!(shows_bell(&app.workspace.tabs[0], false));
    assert!(!shows_bell(&app.workspace.tabs[0], true));
    run(&mut app, Action::Disconnect);
    assert_eq!(app.session_menu().restart, Some(RestartLabel::Reconnect));
    assert!(app.any_tab_ended());
}

#[test]
fn labels_of_the_side_and_status_bars() {
    assert_eq!(group_heading("", 3), "未分组 (3)");
    assert_eq!(group_heading("prod", 0), "prod (0)");
    let p = RemoteProfile {
        host: "h".into(),
        user: "u".into(),
        ..Default::default()
    };
    assert!(remote_hint(&p).starts_with("u@h:22 "), "{}", remote_hint(&p));
    assert_eq!(
        serial_hint(&SerialProfile::default()),
        "串口 auto · 115200 bps · 双击连接 / 右键管理"
    );
    assert_eq!(shell_hint("bash"), "双击打开");
    assert_eq!(shell_hint("/bin/bash"), "双击打开 · /bin/bash");
    assert_eq!(run_state(None), "● 运行中");
    assert_eq!(run_state(Some(130)), "已退出 130");
    assert_eq!(channel(true, true), Channel::Ssh);
    assert_eq!(
        pane_summary(80, 24, channel(false, true), 0, 2),
        "80×24 · ConPTY · 1/2"
    );
    assert_eq!(pane_summary(80, 24, channel(false, false), 1, 2), "80×24 · PTY · 2/2");
    let mut app = app();
    assert!(app.keyboard_enabled(false));
    assert!(!app.keyboard_enabled(true));
    app.search.open = true;
    assert!(!app.keyboard_enabled(false));
}

#[test]
fn the_file_window_serves_one_connection_at_a_time() {
    let none = FilesState {
        present: false,
        same_connection: false,
        transferring: false,
        busy: false,
    };
    let other = FilesState {
        present: true,
        transferring: true,
        ..none
    };
    let mine = FilesState {
        present: true,
        same_connection: true,
        ..none
    };
    assert_eq!(ensure_files(false, none), FilesStep::NoConnection);
    assert_eq!(ensure_files(true, none), FilesStep::Create);
    assert_eq!(ensure_files(true, other), FilesStep::InUse);
    assert_eq!(ensure_files(true, mine), FilesStep::Keep);
    assert_eq!(begin_terminal_zmodem(none), FilesStep::Create);
    assert_eq!(begin_terminal_zmodem(other), FilesStep::InUse);
    assert_eq!(
        begin_terminal_zmodem(FilesState { busy: true, ..mine }),
        FilesStep::Busy
    );
    assert_eq!(begin_terminal_zmodem(mine), FilesStep::Keep);
    assert_eq!(files_refusal(FilesStep::NoConnection), Some("请先连接内置 SSH 会话"));
    assert_eq!(files_refusal(FilesStep::Keep), None);
    assert_eq!(
        terminal_refusal(FilesStep::Busy),
        Some("文件窗口还有 ZMODEM 传输任务，请完成或取消后再试")
    );
    assert_eq!(drop_text(2, ""), "松开上传 2 个文件（先连接 SSH 会话）");
    assert_eq!(drop_text(2, "/tmp"), "松开上传 2 个文件到 /tmp");
    assert_eq!(abort_transfer(), vec![0x18; 8]);
}

#[test]
fn closing_tabs_keeps_the_order_of_the_rest() {
    let mut app = app();
    for name in ["a", "b", "c"] {
        run(&mut app, Action::New(SessionKind::Local(name.into())));
    }
    let ids: Vec<u64> = app.workspace.tabs.iter().map(|t| t.id).collect();
    run(&mut app, Action::CloseTab(1));
    let left: Vec<u64> = app.workspace.tabs.iter().map(|t| t.id).collect();
    assert_eq!(left, vec![ids[0], ids[2], ids[3]]);
    run(&mut app, Action::CloseOtherTabs(2));
    let left: Vec<u64> = app.workspace.tabs.iter().map(|t| t.id).collect();
    assert_eq!(left, vec![ids[3]]);
    run(&mut app, Action::New(SessionKind::Local("d".into())));
    run(&mut app, Action::Disconnect);
    run(&mut app, Action::CloseDisconnectedTabs);
    let left: Vec<u64> = app.workspace.tabs.iter().map(|t| t.id).collect();
    assert_eq!(left, vec![ids[3]]);
}

#[test]
fn splits_can_change_their_session_and_are_undone_by_closing() {
    let mut app = app();
    run(&mut app, Action::Split(Axis::Horizontal));
    assert!(app.asks_for_split());
    let effect = app.choose_split(SessionKind::Local("other".into()));
    assert!(matches!(effect, Effect::Exchange { .. }));
    carry_out(&mut app, effect);
    assert!(!app.asks_for_split());
    assert!(matches!(
        &app.workspace.tabs[0].panes[1].kind,
        SessionKind::Local(name) if name == "other"
    ));
    run(&mut app, Action::ClosePane);
    assert_eq!(app.workspace.tabs[0].panes.len(), 1);
    assert!(app.workspace.tabs[0].layout.valid(1));
}

#[test]
fn connecting_to_a_host_asks_for_the_login() {
    let mut app = app();
    let profile = RemoteProfile {
        host: "h".into(),
        user: "u".into(),
        ..Default::default()
    };
    let kind = SessionKind::Ssh(profile);
    match app.execute(Action::New(kind.clone()), false) {
        Effect::Login { address, .. } => assert_eq!(address, "u@h:22"),
        other => panic!("{other:?}"),
    }
    assert!(app.windows.login);
    assert!(app.login_succeeded(kind));
    assert!(app.workspace.active_is_remote());
    run(&mut app, Action::Toolbox);
    assert!(app.error.is_none());
    let cancelled = app.login_cancelled();
    assert!(cancelled.is_none());
}

/// The workspace is in order: what is active is there, and every layout shows
/// each of its panes once.
fn in_order(app: &App) {
    let w = &app.workspace;
    assert!(w.active < w.tabs.len() || (w.tabs.is_empty() && w.active == 0));
    let mut numbers = vec![];
    for tab in &w.tabs {
        assert!(tab.focused < tab.panes.len() && tab.panes.len() <= 32);
        assert!(tab.layout.valid(tab.panes.len()));
        numbers.extend(tab.panes.iter().map(|pane| pane.id));
    }
    let count = numbers.len();
    numbers.sort();
    numbers.dedup();
    assert_eq!(numbers.len(), count);
}

#[test]
fn every_action_keeps_the_workspace_in_order() {
    let mut app = app();
    let local = || SessionKind::Local("sh".into());
    for action in [
        Action::Split(Axis::Vertical),
        Action::New(local()),
        Action::DuplicateSession(1),
        Action::DuplicateSession(9),
        Action::CloseTab(9),
        Action::CloseOtherTabs(9),
        Action::CloseTab(0),
        Action::Split(Axis::Horizontal),
        Action::ClosePane,
        Action::Disconnect,
        Action::CloseDisconnectedTabs,
        Action::Restart,
        Action::CloseOtherTabs(0),
        Action::ClosePane,
        Action::ClosePane,
        Action::Disconnect,
        Action::New(com199()),
    ] {
        let before = app.workspace.tabs.len();
        let missing = matches!(
            action,
            Action::DuplicateSession(9) | Action::CloseTab(9) | Action::CloseOtherTabs(9)
        );
        run(&mut app, action);
        in_order(&app);
        if missing {
            assert_eq!(app.workspace.tabs.len(), before);
        }
    }
    assert_eq!(app.workspace.tabs.len(), 1);
}

#[test]
fn the_help_lists_the_keys_of_the_platform() {
    let other = help_keys(false);
    let mac = help_keys(true);
    assert_eq!(other.len(), 10);
    assert_eq!(other[0], ("Ctrl+Shift+T / W".to_string(), "新建标签 / 关闭窗格"));
    assert_eq!(mac[0].0, "Cmd+Shift+T / W");
    assert_eq!((other[2].0.as_str(), mac[2].0.as_str()), ("Ctrl+Tab / Alt+Right", "Ctrl+Tab / Option+Right"));
    assert_eq!((other[3].0.as_str(), mac[3].0.as_str()), ("Ctrl+Shift+C / V", "Cmd+C / Cmd+V"));
    assert_eq!((other[4].0.as_str(), mac[4].0.as_str()), ("Ctrl+C", "Ctrl+C"));
    assert_eq!(mac[5].0, "Option+C / Option+R");
    assert_eq!(mac[7].0, "Cmd+Shift+B / Cmd+,");
}

#[test]
fn sessions_are_called_by_their_shell_or_connection() {
    let host = RemoteProfile {
        host: "example".into(),
        ..Default::default()
    };
    assert_eq!(kind_label(&SessionKind::Local("zsh".into())), "zsh");
    assert_eq!(kind_label(&SessionKind::Sftp(host)), "example");
    assert_eq!(kind_label(&com199()), "COM199");
}

#[test]
fn only_later_output_marks_a_tab_again() {
    let mut app = app();
    let (tab, pane) = (app.workspace.tabs[0].id, app.workspace.tabs[0].panes[0].id);
    app.workspace.hear(tab, pane, SessionStatus::Live, 64, true);
    app.workspace.mark_active_seen();
    assert!(!app.workspace.tabs[0].panes[0].bell);
    app.workspace.hear(tab, pane, SessionStatus::Lost, 64, true);
    assert!(!app.workspace.tabs[0].updated(false));
    app.workspace.hear(tab, pane, SessionStatus::Live, 65, false);
    assert!(app.workspace.tabs[0].updated(false));
    assert!(!app.workspace.tabs[0].updated(true));
}

#[test]
fn a_new_split_stops_at_the_limit() {
    let mut app = app();
    for _ in 0..40 {
        if app.workspace.has_room() {
            run(&mut app, Action::Split(Axis::Vertical));
        }
    }
    assert_eq!(app.workspace.tabs[0].panes.len(), 32);
    let effect = app.execute(Action::Split(Axis::Vertical), false);
    assert!(matches!(effect, Effect::Nothing));
}

#[test]
fn hits_of_a_search_go_round() {
    let mut app = app();
    assert_eq!(app.search.found(vec![(5, 1), (2, 0)]), Some(5));
    assert_eq!(app.search.next(), Some(2));
    assert_eq!(app.search.next(), Some(5));
    assert_eq!(app.search.found(vec![]), None);
    assert_eq!(app.search.next(), None);
}

#[test]
fn saving_a_connection_keeps_what_is_open() {
    let mut app = app();
    run(&mut app, Action::Split(Axis::Horizontal));
    assert!(app.settings.workspace.is_empty());
    run(&mut app, Action::Remote);
    app.form.remote.host = "10.0.0.8".into();
    let saved = app.save_form(true, "COM3");
    assert!(saved.kept);
    assert!(matches!(
        saved.connect,
        Some(Action::New(SessionKind::Ssh(p))) if p.host == "10.0.0.8"
    ));
    assert_eq!(app.settings.workspace.len(), 1);
    assert_eq!(app.settings.workspace[0].sessions.len(), 2);
    // A copy and its removal leave the list as it was, and keep the tabs too.
    run(&mut app, Action::ClosePane);
    run(&mut app, Action::Duplicate(0));
    assert_eq!(app.settings.profiles[1].name, "10.0.0.8 副本");
    assert_eq!(app.settings.workspace[0].sessions.len(), 1);
    run(&mut app, Action::Remove(1));
    assert_eq!(app.settings.profiles.len(), 1);
    assert_eq!(app.settings.profiles[0].name, "");
}

#[test]
fn a_script_that_was_sent_is_counted() {
    let mut app = app();
    app.windows.toolbox = true;
    app.script_sent("更新 apt", Some(Ok(())));
    assert_eq!(
        app.notice.as_deref(),
        Some("已发送服务器初始化脚本（6 字符）")
    );
    assert!(!app.windows.toolbox && app.error.is_none());
    app.script_sent("x", Some(Err("写入失败".into())));
    assert_eq!(app.error.as_deref(), Some("写入失败"));
    app.notice = None;
    app.script_sent("x", None);
    assert!(app.notice.is_none());
}
