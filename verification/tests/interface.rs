//! The menus, the glyphs, the update window, and when the window is drawn.

use g_terminal::app::menus::{
    closing_menu, imported_menu, opening_menu, remote_menu, serial_menu, Choice, Entry, Shell,
};
use g_terminal::app::status::next_frame;
use g_terminal::app::titlebar::{
    next_title, tab_look, topbar_margin, ResizeCursor, ResizeDirection, TabLook, Tint,
};
use g_terminal::app::transfer::{offer_step, OfferStep};
use g_terminal::app::updates::{describe, shows_notes, Release, Status, Updater};
use g_terminal::app::{Action, App, Effect};
use g_terminal::config::profile::{RemoteProfile, SerialProfile};
use g_terminal::config::settings::Settings;
use g_terminal::frames::{
    buffer_side, delay, draws, has_area, rows, Idle, Schedule, LONGEST_DELAY,
};
use g_terminal::icons::{draw, Icon, Mark, Size};
use g_terminal::layout::Axis;
use g_terminal::session::{SessionKind, TagColor};

/// A terminal whose first session runs.
fn started() -> App {
    let (mut app, effect) = App::new(Settings::new(false), None, true);
    if let Effect::Connect {
        tab, pane, kind, ..
    } = effect
    {
        app.session_started(tab, pane, kind);
    }
    app
}

fn texts(entries: &[Entry]) -> Vec<&str> {
    entries.iter().map(|e| e.text.as_str()).collect()
}

#[test]
fn every_icon_paints_something_at_every_size() {
    let all: [Icon; 29] = [
        Icon::Terminal,
        Icon::Host,
        Icon::FolderUp,
        Icon::Home,
        Icon::Refresh,
        Icon::Group,
        Icon::Settings,
        Icon::Help,
        Icon::SplitHorizontal,
        Icon::SplitVertical,
        Icon::ClosePane,
        Icon::Restart,
        Icon::Search,
        Icon::Plus,
        Icon::ChevronLeft,
        Icon::ChevronRight,
        Icon::NewFolder,
        Icon::File,
        Icon::Close,
        Icon::Folder,
        Icon::FileText,
        Icon::FileCode,
        Icon::FileImage,
        Icon::FileArchive,
        Icon::FileMedia,
        Icon::FileBinary,
        Icon::Maximize,
        Icon::Restore,
        Icon::Minimize,
    ];
    for icon in all {
        for size in [Size::Row, Size::Button, Size::Title] {
            assert!(size.extent() > 0 && size.stroke() > 0);
            assert!(!draw(icon).is_empty(), "{icon:?} painted nothing at {size:?}");
        }
    }
}

#[test]
fn glyphs_are_told_apart_and_stay_in_their_box() {
    assert_ne!(draw(Icon::ChevronLeft), draw(Icon::ChevronRight));
    assert_ne!(draw(Icon::File), draw(Icon::FileText));
    let cross = draw(Icon::Close);
    assert_eq!(cross.len(), 2);
    for mark in cross {
        match mark {
            Mark::Line { from, to } => {
                assert!(from.0.abs() <= 105 && to.1.abs() <= 105);
                assert_ne!(from, to);
            }
            _ => panic!("a cross has lines"),
        }
    }
}

#[test]
fn the_main_menu_follows_the_session() {
    let mut app = started();
    let first = opening_menu("bash", "COM3", false);
    assert_eq!(
        texts(&first),
        vec![
            "新建终端",
            "新建窗口",
            "新建 SSH 连接",
            "连接串口",
            "串口占用排查",
            "文件与传输队列",
            "左右分屏",
            "上下分屏",
            "关闭窗格",
        ]
    );
    assert_eq!(first[0].shortcut.as_deref(), Some("Ctrl+Shift+T"));
    assert!(matches!(&first[4].choice, Choice::Do { action: Action::FindPortOwner(p) } if p == "COM3"));
    assert!(matches!(
        &first[0].choice,
        Choice::Do { action: Action::New(SessionKind::Local(shell)) } if shell == "bash"
    ));
    assert_eq!(
        texts(&app.session_entries(false)),
        vec!["断开当前连接", "重新连接 / 重启", "查找历史"]
    );
    let _ = app.execute(Action::Disconnect, false);
    assert_eq!(
        texts(&app.session_entries(false)),
        vec!["重新连接", "查找历史"]
    );
    assert_eq!(
        texts(&closing_menu(true)),
        vec!["连接分组管理", "服务器工具箱", "偏好设置", "快捷键 / 关于", "检查更新"]
    );
}

#[test]
fn entries_open_windows_or_ask_for_actions() {
    let mut app = started();
    assert!(app.choose_entry(Choice::OpenSearch).is_none());
    assert!(app.search.open && app.search.focus);
    assert!(app.choose_entry(Choice::OpenGroups).is_none());
    assert!(app.choose_entry(Choice::OpenSettings).is_none());
    assert!(app.choose_entry(Choice::OpenHelp).is_none());
    assert!(app.windows.groups && app.windows.settings && app.windows.help);
    let choice = Choice::Do {
        action: Action::Split(Axis::Vertical),
    };
    assert!(matches!(
        app.choose_entry(choice),
        Some(Action::Split(Axis::Vertical))
    ));
}

#[test]
fn tabs_offer_to_close_the_others_where_there_are_some() {
    let mut app = started();
    let menu = app.tab_menu(0);
    assert_eq!(menu.len(), 6);
    assert!(!menu[4].enabled && !menu[5].enabled);
    let _ = app.execute(Action::Disconnect, false);
    assert!(app.tab_menu(0)[5].enabled);
    let _ = app.execute(Action::New(SessionKind::Local("sh".into())), false);
    assert!(app.tab_menu(0)[4].enabled);
    assert!(matches!(
        app.tab_menu(1)[3].choice,
        Choice::Do { action: Action::CloseTab(1) }
    ));
}

#[test]
fn connections_have_their_menus() {
    let remote = RemoteProfile {
        host: "10.0.0.8".into(),
        ..Default::default()
    };
    let menu = remote_menu(2, &remote);
    assert_eq!(
        texts(&menu),
        vec!["连接 SSH", "编辑 / 跳板机 / 转发", "复制连接", "删除连接"]
    );
    assert!(matches!(menu[3].choice, Choice::Do { action: Action::Remove(2) }));
    let serial = SerialProfile {
        port: "COM9".into(),
        ..Default::default()
    };
    let menu = serial_menu(1, &serial);
    assert!(matches!(
        &menu[0].choice,
        Choice::Do { action: Action::New(SessionKind::Serial(p)) } if p.port == "COM9"
    ));
    assert!(matches!(menu[1].choice, Choice::Do { action: Action::EditSerial(1) }));
    let menu = imported_menu(&remote);
    assert!(matches!(
        &menu[1].choice,
        Choice::Do { action: Action::AdoptSshConfig(p) } if p.host == "10.0.0.8"
    ));
}

#[test]
fn a_fresh_split_can_hold_any_saved_session() {
    let mut app = started();
    app.settings.profiles.push(RemoteProfile {
        name: "build".into(),
        host: "10.0.0.8".into(),
        ..Default::default()
    });
    app.settings.serial_profiles.push(SerialProfile {
        name: "board".into(),
        port: "COM9".into(),
        ..Default::default()
    });
    let shells = vec![Shell {
        label: "Bash".into(),
        value: "/bin/bash".into(),
    }];
    let choices = app.split_choices(&shells);
    assert_eq!(choices.len(), 3);
    assert_eq!(choices[0].text, "本地 Bash");
    assert!(matches!(&choices[0].kind, SessionKind::Local(s) if s == "/bin/bash"));
    assert_eq!(choices[1].text, "SSH · build");
    assert!(choices[2].text.starts_with("串口 · board"));
}

fn release(asset: Option<&str>) -> Release {
    Release {
        version: "0.3.0".into(),
        notes: "fixes".into(),
        url: "https://example.com/0.3.0".into(),
        asset: asset.map(str::to_string),
        asset_name: asset.map(|_| "g-terminal.zip".to_string()),
    }
}

#[test]
fn an_update_is_looked_for_and_installed() {
    let mut updater = Updater {
        open: false,
        status: Status::Ready,
    };
    updater.check_updates();
    assert!(updater.open);
    assert_eq!(updater.status, Status::Checking);
    assert_eq!(
        describe(&updater.status, "0.2.2"),
        "正在检查 GitHub 上的最新版本…"
    );
    updater.checked(Ok(Status::Available {
        release: release(None),
    }));
    assert_eq!(
        describe(&updater.status, "0.2.2"),
        "发现新版本 0.3.0（当前 0.2.2）。"
    );
    // Without an archive for this platform nothing is installed.
    assert_eq!(updater.start_update(release(None)), None);
    assert!(matches!(updater.status, Status::Available { .. }));
    assert_eq!(
        updater.start_update(release(Some("u"))),
        Some(("u".to_string(), "g-terminal.zip".to_string()))
    );
    assert_eq!(updater.status, Status::Downloading);
    updater.installed(Err("磁盘已满".into()));
    assert_eq!(describe(&updater.status, "0.2.2"), "磁盘已满");
    updater.installed(Ok(()));
    assert_eq!(updater.status, Status::Ready);
    updater.checked(Err("no".into()));
    assert_eq!(updater.status, Status::Failed { error: "no".into() });
    let current = Status::UpToDate {
        current: "0.2.2".into(),
    };
    assert_eq!(describe(&current, "0.2.2"), "已是最新版本（0.2.2）。");
    assert!(shows_notes(&release(None)));
    let quiet = Release {
        notes: " \n".into(),
        ..release(None)
    };
    assert!(!shows_notes(&quiet));
}

#[test]
fn the_title_changes_only_when_it_has_to() {
    assert_eq!(next_title(&None, ""), Some("G-Terminal".to_string()));
    assert_eq!(next_title(&None, "G-Terminal"), None);
    let title = next_title(&Some("vim".into()), "G-Terminal").unwrap();
    assert!(title.starts_with("vim") && title.ends_with("G-Terminal"));
    assert_eq!(next_title(&Some("vim".into()), &title), None);
}

#[test]
fn tabs_keep_the_colour_of_their_connection() {
    let plain = TabLook {
        tint: Tint::Plain,
        raised: false,
        mix: 0,
        outline: 0,
    };
    assert_eq!(tab_look(None, false, false), plain);
    assert_eq!(tab_look(None, true, true).tint, Tint::Accent);
    let color = TagColor {
        red: 1,
        green: 2,
        blue: 3,
    };
    for active in [false, true] {
        let look = tab_look(Some(color), active, false);
        assert_eq!(look.tint, Tint::Tag { color });
        assert_eq!(look.raised, active);
    }
    assert!(tab_look(Some(color), false, true).mix > tab_look(Some(color), false, false).mix);
}

#[test]
fn the_bar_clears_the_buttons_of_a_mac() {
    assert_eq!(topbar_margin(true).left, 78);
    assert_eq!(topbar_margin(false).left, 4);
    assert_eq!(ResizeDirection::NorthWest.cursor(), ResizeCursor::NwSe);
    assert_eq!(ResizeDirection::SouthWest.cursor(), ResizeCursor::NeSw);
    assert_eq!(ResizeDirection::East.cursor(), ResizeCursor::Horizontal);
    assert_eq!(ResizeDirection::South.cursor(), ResizeCursor::Vertical);
}

#[test]
fn the_shortest_wait_wins() {
    assert_eq!(next_frame(true, true, true), Some(40));
    assert_eq!(next_frame(false, true, true), Some(100));
    assert_eq!(next_frame(false, true, false), Some(200));
    assert_eq!(next_frame(false, false, false), None);
}

#[test]
fn offered_transfers_ask_for_a_file_or_a_folder() {
    assert_eq!(offer_step(true, Some(true)), OfferStep::PickFile);
    assert_eq!(offer_step(true, Some(false)), OfferStep::PickFolder);
    assert_eq!(offer_step(true, None), OfferStep::Nothing);
    assert_eq!(offer_step(false, Some(true)), OfferStep::Nothing);
}

#[test]
fn frames_are_set_drawn_and_forgotten() {
    let mut schedule = Schedule { next: None };
    assert_eq!(schedule.idle(5), Idle::Event);
    assert!(schedule.ask(10, 10));
    assert_eq!(schedule.next, None);
    assert!(!schedule.ask(10, 30));
    assert!(!schedule.ask(10, 40));
    assert_eq!(schedule.idle(11), Idle::Until { instant: 30 });
    assert!(!schedule.ask(11, 20));
    assert_eq!(schedule.idle(20), Idle::Draw);
    assert_eq!(schedule.idle(50), Idle::Event);
    assert_eq!(delay(7), 7);
    assert_eq!(delay(u64::MAX), LONGEST_DELAY);
    assert_eq!(LONGEST_DELAY, 24 * 3600 * 1_000_000_000);
}

#[test]
fn a_picture_is_read_without_its_padding() {
    let mapped: Vec<u8> = (0..28).collect();
    let out = rows(&mapped, 2, 3, 10);
    let expected: Vec<u8> = (0..8).chain(10..18).chain(20..28).collect();
    assert_eq!(out, expected);
    assert_eq!(rows(&mapped, 1, 7, 4), mapped);
    assert!(rows(&mapped, 1, 0, 4).is_empty());
    assert!(draws(None, true) && draws(Some(false), true));
    assert!(!draws(Some(true), true) && !draws(None, false));
    assert_eq!((buffer_side(0), buffer_side(9)), (1, 9));
    assert!(has_area(1, 1) && !has_area(0, 1) && !has_area(1, 0));
}
