//! Who holds a serial port, and what can be done about it.

use g_terminal::app::helper::{
    find_value, helper_action, helper_message, report_pause, HelperAction,
};
use g_terminal::app::port_owner::{
    blocked_text, blockers, confirm, failures, hidden_hint, join_note, kill_all,
    privileged_answer, releases_privileged, row_action, Attempt, PortOwnerWindow, Phase, Privileged,
    RowAction, SerialProbe,
};
use g_terminal::config::profile::SerialProfile;
use g_terminal::port_owner::linux::{
    Driver, Interface, ReleaseAction, ReleaseEvent, WriteFailure,
};
use g_terminal::port_owner::windows::{name_matches, read_table, TableStep, MOST_ROOM, TOO_SMALL};
use g_terminal::port_owner::{
    elevated, kill, linux, macos, release, scan, unsupported, windows, KillAction, KillEvent,
    Owner, Platform, ReleasePlan, Report,
};
use g_terminal::session::SessionKind;

fn owner(pid: u32, killable: bool) -> Owner {
    Owner {
        pid,
        name: format!("p{pid}"),
        path: None,
        killable,
    }
}

fn report(owners: Vec<Owner>) -> Report {
    Report {
        port: "COM3".into(),
        owners,
        hidden: 2,
    }
}

fn linux_process(entry: &str, uid: u32, devices: Option<Vec<Option<u64>>>) -> linux::Process {
    linux::Process {
        entry: entry.into(),
        uid: Some(uid),
        descriptors: devices,
        executable: None,
        command: Some(" cat\n".into()),
    }
}

#[test]
fn a_missing_device_is_reported_not_ignored() {
    let error = linux::scan(
        "/dev/definitely-not-a-port",
        Err("No such file or directory (os error 2)".into()),
        Ok(vec![]),
        1000,
    )
    .expect_err("must fail");
    assert!(error.contains("无法读取"), "{error}");
    assert_eq!(
        error,
        "无法读取 /dev/definitely-not-a-port：No such file or directory (os error 2)"
    );
}

#[test]
fn a_linux_scan_finds_the_holders_and_counts_the_rest() {
    let list = vec![
        linux_process("self", 1000, Some(vec![Some(7)])),
        linux_process("10", 1000, Some(vec![None, Some(7)])),
        linux_process("11", 1000, Some(vec![Some(8)])),
        linux_process("12", 0, None),
        linux_process("13", 1000, None),
        linux::Process {
            executable: Some(linux::Executable {
                path: "/usr/bin/minicom".into(),
                name: Some("minicom".into()),
            }),
            ..linux_process("14", 0, Some(vec![Some(7)]))
        },
    ];
    let found = linux::scan("/dev/ttyUSB0", Ok(7), Ok(list), 1000).unwrap();
    assert_eq!(found.hidden, 1);
    let pids: Vec<u32> = found.owners.iter().map(|o| o.pid).collect();
    assert_eq!(pids, vec![10, 14]);
    assert_eq!(found.owners[0].name, "cat");
    assert!(found.owners[0].killable);
    assert_eq!(found.owners[1].name, "minicom");
    assert_eq!(found.owners[1].path.as_deref(), Some("/usr/bin/minicom"));
    assert!(!found.owners[1].killable);
    let error = linux::scan("p", Ok(7), Err("no".into()), 0).unwrap_err();
    assert_eq!(error, "无法读取 /proc：no");
    let root = linux::scan("p", Ok(7), Ok(vec![linux_process("12", 5, None)]), 0).unwrap();
    assert_eq!(root.hidden, 0);
}

#[test]
fn a_process_without_a_name_is_called_by_its_number() {
    let p = linux::Process {
        command: None,
        executable: Some(linux::Executable {
            path: "relative".into(),
            name: None,
        }),
        ..linux_process("9", 0, None)
    };
    let o = linux::owner(&p, 9, true);
    assert_eq!(o.name, "PID 9");
    assert_eq!(o.path, None);
    assert!(o.is_self(9));
    assert!(!o.is_self(8));
}

#[test]
fn a_device_is_unbound_and_bound_again() {
    let step = |event: ReleaseEvent| linux::release("/dev/ttyUSB0", event);
    assert_eq!(
        step(ReleaseEvent::Begin { tty: Some("ttyUSB0".into()) }),
        ReleaseAction::Locate { path: "/sys/class/tty/ttyUSB0/device".into() }
    );
    assert_eq!(
        step(ReleaseEvent::Located { device: Ok(Interface::Named { name: "1-1:1.0".into() }) }),
        ReleaseAction::FindDriver { interface: "1-1:1.0".into() }
    );
    assert_eq!(
        step(ReleaseEvent::Bound {
            interface: "1-1:1.0".into(),
            found: Driver::Named { name: "ch341".into() },
        }),
        ReleaseAction::Write {
            file: "/sys/bus/usb/drivers/ch341/unbind".into(),
            text: "1-1:1.0\n".into(),
            after_ms: 0,
        }
    );
    assert_eq!(
        step(ReleaseEvent::Unbound {
            interface: "1-1:1.0".into(),
            driver: "ch341".into(),
            failure: None,
        }),
        ReleaseAction::Write {
            file: "/sys/bus/usb/drivers/ch341/bind".into(),
            text: "1-1:1.0\n".into(),
            after_ms: 400,
        }
    );
    assert_eq!(
        step(ReleaseEvent::Rebound {
            interface: "1-1:1.0".into(),
            driver: "ch341".into(),
            failure: None,
        }),
        ReleaseAction::Done {
            outcome: Ok("已重启 1-1:1.0（驱动 ch341），现在可以重新连接".into())
        }
    );
    let refused = |event: ReleaseEvent| match step(event) {
        ReleaseAction::Done { outcome: Err(text) } => text,
        other => panic!("{other:?}"),
    };
    assert_eq!(
        refused(ReleaseEvent::Begin { tty: None }),
        "无法从 /dev/ttyUSB0 取出设备名"
    );
    assert_eq!(
        refused(ReleaseEvent::Located { device: Err("gone".into()) }),
        "/dev/ttyUSB0 不是可重启的串口设备（gone）"
    );
    assert_eq!(
        refused(ReleaseEvent::Located { device: Ok(Interface::Missing) }),
        "无法定位 USB 接口"
    );
    assert_eq!(
        refused(ReleaseEvent::Located { device: Ok(Interface::Unnamed) }),
        "无法定位 USB 接口名"
    );
    assert_eq!(
        refused(ReleaseEvent::Bound { interface: "i".into(), found: Driver::Missing }),
        "/dev/ttyUSB0 不是 USB 转串口设备，只能结束占用它的进程"
    );
    assert_eq!(
        refused(ReleaseEvent::Bound { interface: "i".into(), found: Driver::Unnamed }),
        "无法识别 USB 驱动"
    );
    assert_eq!(
        refused(ReleaseEvent::Unbound {
            interface: "i".into(),
            driver: "d".into(),
            failure: Some(WriteFailure { denied: true, text: "x".into() }),
        }),
        "解绑设备需要 root 权限，请以 root 运行或改用结束进程"
    );
    assert_eq!(
        refused(ReleaseEvent::Rebound {
            interface: "i".into(),
            driver: "d".into(),
            failure: Some(WriteFailure { denied: false, text: "x".into() }),
        }),
        "重新绑定设备失败：x"
    );
}

#[test]
fn a_mac_scan_leaves_out_the_asker_and_nameless_tasks() {
    let device = macos::Descriptor {
        fd_type: 1,
        named: true,
        is_target: false,
        leads_to_target: true,
    };
    let p = |pid: i32, name: Option<&str>, list: Option<Vec<macos::Descriptor>>| macos::Process {
        pid,
        name: name.map(String::from),
        executable: None,
        descriptors: list,
    };
    let list = vec![
        p(0, Some("kernel"), Some(vec![device])),
        p(5, Some("me"), Some(vec![device])),
        p(6, None, Some(vec![device])),
        p(7, Some("screen"), Some(vec![device])),
        p(8, Some("socket"), Some(vec![macos::Descriptor { fd_type: 2, ..device }])),
        p(9, Some("other"), None),
    ];
    let found = macos::scan("/dev/cu.x", Ok(()), &list, 5, 501).unwrap();
    assert_eq!(found.owners.len(), 1);
    assert_eq!(found.owners[0].pid, 7);
    assert_eq!(found.hidden, 1);
    assert_eq!(macos::scan("p", Ok(()), &list, 5, 0).unwrap().hidden, 0);
    assert_eq!(
        macos::scan("/dev/x", Err("gone".into()), &list, 5, 0).unwrap_err(),
        "无法读取 /dev/x：gone"
    );
    assert_eq!(macos::port_is_free(Ok(found), 5), Ok(false));
    assert_eq!(macos::port_is_free(Ok(report(vec![owner(5, true)])), 5), Ok(true));
    assert_eq!(macos::port_is_free(Err("x".into()), 5), Err("x".into()));
    assert!(macos::elevate_kill(1).is_err());
    assert!(macos::elevate_release("p").is_err());
}

#[test]
fn a_handle_name_may_carry_a_suffix() {
    assert!(name_matches("\\Device\\Serial0", "\\Device\\Serial0"));
    assert!(name_matches("\\device\\serial0", "\\Device\\Serial0"));
    assert!(name_matches("\\??\\COM3", "\\??\\COM3"));
    assert!(!name_matches("\\Device\\Serial10", "\\Device\\Serial1"));
    assert!(!name_matches("\\Device\\Serial", "\\Device\\Serial0"));
}

#[test]
fn device_names_include_the_dos_name_even_without_a_map() {
    // The map may not list the port at all; the DOS names are still worth
    // matching so the scan never comes back empty-handed.
    let names = windows::device_names("COM99", &vec![]);
    assert!(names.iter().any(|name| name == "\\??\\COM99"));
    assert!(names.iter().any(|name| name == "\\\\.\\COM99"));
}

#[test]
fn the_map_adds_the_device_objects() {
    let entry = |device: &str, port: &str| windows::MapEntry {
        device: device.into(),
        port: port.into(),
    };
    let map = vec![entry("\\Device\\Serial0", "COM1"), entry("\\Device\\VCP0", " com3 ")];
    assert_eq!(
        windows::device_names("COM3", &map),
        vec![
            "\\??\\COM3",
            "\\\\.\\COM3",
            "\\\\?\\COM3",
            "\\Device\\VCP0",
            "\\??\\GLOBALROOT\\Device\\VCP0",
        ]
    );
}

#[test]
fn only_files_open_for_io_can_be_ports() {
    let row = |pid: u32, handle: u64, access: u32, object_type: u16| windows::TableEntry {
        pid,
        handle,
        access,
        object_type,
    };
    let table = vec![
        row(0, 1, 3, 37),
        row(4, 2, 1, 37),
        row(9, 3, 3, 37),
        row(4, 4, 4, 37),
        row(4, 5, 3, 40),
    ];
    let found = windows::handles_for_io(&table, 9, 3).unwrap();
    assert_eq!(found, vec![table[1], table[2]]);
    assert_eq!(
        windows::handles_for_io(&table, 9, 99),
        Err("无法确定文件对象的类型编号".into())
    );
}

#[test]
fn the_room_for_the_table_grows_within_a_limit() {
    assert_eq!(read_table(TOO_SMALL, 1 << 20, 5), TableStep::Grow { room: 1 << 21 });
    assert_eq!(
        read_table(TOO_SMALL, 1 << 20, 3 << 20),
        TableStep::Grow { room: 3 << 20 }
    );
    assert_eq!(
        read_table(TOO_SMALL, MOST_ROOM, 0),
        TableStep::Fail { reason: "系统句柄表异常地大，已放弃查找".into() }
    );
    assert_eq!(
        read_table(0xC000_0005u32 as i32, 1 << 20, 0),
        TableStep::Fail { reason: "读取系统句柄表失败（0xC0000005）".into() }
    );
    assert_eq!(read_table(0, 1 << 20, 0), TableStep::Read);
}

#[test]
fn a_windows_scan_lists_each_holder_once() {
    let handle = |pid: u32, name: Option<&str>| windows::NamedHandle {
        pid,
        name: name.map(String::from),
    };
    let names = vec![
        handle(10, Some("\\Device\\Serial0")),
        handle(11, Some("\\Device\\Null")),
        handle(10, Some("\\??\\COM3")),
        handle(12, None),
        handle(12, None),
        handle(13, None),
    ];
    let process = |pid: u32, path: Option<&str>, terminable: bool| windows::Process {
        pid,
        path: path.map(String::from),
        name: path.map(|_| "putty.exe".to_string()),
        terminable,
    };
    let processes = vec![
        process(10, Some("C:\\putty.exe"), true),
        process(12, Some("C:\\x.exe"), false),
        process(13, None, false),
    ];
    let map = vec![windows::MapEntry {
        device: "\\Device\\Serial0".into(),
        port: "COM3".into(),
    }];
    let found = windows::scan("COM3", &map, Ok(names), &processes, 1).unwrap();
    assert_eq!(found.owners.len(), 1);
    assert_eq!(found.owners[0].name, "putty.exe");
    assert_eq!(found.owners[0].path.as_deref(), Some("C:\\putty.exe"));
    assert!(found.owners[0].killable);
    assert_eq!(found.hidden, 1);
    let none = windows::scan("COM199", &map, Ok(vec![handle(1, Some("x"))]), &processes, 1);
    assert!(none.unwrap().owners.is_empty());
    let own = windows::scan(
        "COM3",
        &map,
        Ok(vec![handle(77, Some("\\??\\COM3"))]),
        &processes,
        77,
    )
    .unwrap();
    assert_eq!(own.owners[0].name, "PID 77");
    assert!(!own.owners[0].killable);
    assert_eq!(
        windows::scan("COM3", &map, Err("no".into()), &processes, 1).unwrap_err(),
        "no"
    );
}

fn wide(text: &str) -> Vec<u8> {
    text.encode_utf16().flat_map(u16::to_le_bytes).collect()
}

#[test]
fn texts_in_memory_end_with_a_zero_or_with_the_memory() {
    let mut bytes = wide("COM3\0rest");
    assert_eq!(windows::wide_string(&bytes), "COM3");
    bytes.truncate(5);
    assert_eq!(windows::wide_string(&bytes), "CO");
    assert_eq!(windows::wide_string(&wide("串口😀")), "串口😀");
    assert_eq!(windows::wide_string(&[0x00, 0xd8, 0x41, 0x00]), "\u{fffd}A");
    assert_eq!(windows::wide_string(&[0x00, 0xdc, 0x3d, 0xd8]), "\u{fffd}\u{fffd}");
    assert_eq!(windows::wide_string(&[]), "");
}

#[test]
fn a_device_is_known_by_its_port_or_its_friendly_name() {
    let device = |port: Option<&str>, friendly: Option<&str>| windows::Device {
        port_name: port.map(wide),
        friendly_name: friendly.map(wide),
    };
    let list = vec![
        device(Some("COM1"), Some("Port (COM1)")),
        device(None, Some("USB Serial Port (com3)")),
        device(Some("COM3"), None),
    ];
    assert_eq!(windows::release("COM3", &Some(list)), Ok(1));
    assert!(!windows::is_port_device(&device(None, Some("Port (COM30)")), "COM3"));
    assert!(windows::is_port_device(&device(Some("com3"), None), "COM3"));
    assert_eq!(
        windows::release("COM9", &Some(vec![])),
        Err("没有找到 COM9 对应的设备".into())
    );
    assert_eq!(
        windows::release("COM9", &None),
        Err("无法枚举设备（需要管理员权限）".into())
    );
    assert_eq!(
        windows::restarted("COM3", true),
        Ok("已重启 COM3 对应的设备，现在可以重新连接".into())
    );
    assert!(windows::restarted("COM3", false).is_err());
}

#[test]
fn processes_are_asked_before_they_are_forced() {
    let text = |action: KillAction| match action {
        KillAction::Done { outcome } => outcome,
        other => panic!("{other:?}"),
    };
    for platform in [Platform::Linux, Platform::Macos, Platform::Windows, Platform::Other] {
        assert!(text(kill(platform, 7, 7, KillEvent::Begin)).is_err());
    }
    for platform in [Platform::Linux, Platform::Macos] {
        assert_eq!(kill(platform, 7, 1, KillEvent::Begin), KillAction::Open);
        assert_eq!(
            kill(platform, 7, 1, KillEvent::Opened { ok: true }),
            KillAction::Ask { wait_ms: 1500 }
        );
        assert_eq!(
            text(kill(platform, 7, 1, KillEvent::Opened { ok: false })),
            Err("该进程不存在，或没有权限结束它，请用 root 权限重试".into())
        );
        assert_eq!(kill(platform, 0x7fff_ffff, 1, KillEvent::Begin), KillAction::Open);
        for pid in [0, 0x8000_0000, u32::MAX] {
            assert_eq!(
                text(kill(platform, pid, 1, KillEvent::Begin)),
                Err("该进程不存在".into())
            );
        }
    }
    assert_eq!(
        kill(Platform::Macos, 7, 1, KillEvent::Asked { windows: 0, gone: false }),
        KillAction::Force { wait_ms: 1000 }
    );
    assert_eq!(
        text(kill(Platform::Linux, 7, 1, KillEvent::Asked { windows: 0, gone: true })),
        Ok("已发送 SIGTERM，进程已退出".into())
    );
    assert_eq!(
        text(kill(Platform::Linux, 7, 1, KillEvent::Forced { windows: 0, gone: true })),
        Ok("进程忽略 SIGTERM，已用 SIGKILL 强制结束".into())
    );
    assert_eq!(
        text(kill(Platform::Linux, 7, 1, KillEvent::Forced { windows: 0, gone: false })),
        Err("进程仍未退出，请用 root 权限重试".into())
    );
    assert_eq!(kill(Platform::Windows, 7, 1, KillEvent::Begin), KillAction::Open);
    assert_eq!(
        kill(Platform::Windows, 7, 1, KillEvent::Opened { ok: true }),
        KillAction::Ask { wait_ms: 1500 }
    );
    assert!(text(kill(Platform::Windows, 7, 1, KillEvent::Opened { ok: false })).is_err());
    assert_eq!(
        text(kill(Platform::Windows, 7, 1, KillEvent::Asked { windows: 2, gone: true })),
        Ok("已关闭 2 个窗口，进程已退出".into())
    );
    assert_eq!(
        text(kill(Platform::Windows, 7, 1, KillEvent::Forced { windows: 2, gone: true })),
        Ok("已发送关闭请求，随后强制结束了进程（2 个窗口）".into())
    );
}

#[test]
fn platforms_offer_what_they_can() {
    assert!(elevated(Platform::Linux, 0, None));
    assert!(!elevated(Platform::Macos, 501, Some(1)));
    assert!(elevated(Platform::Windows, 5, Some(1)));
    assert!(!elevated(Platform::Windows, 0, None));
    assert!(!elevated(Platform::Other, 0, Some(1)));
    assert!(Platform::Macos.supported() && !Platform::Macos.can_release());
    assert!(Platform::Linux.can_release() && Platform::Windows.can_elevate());
    assert!(!Platform::Other.supported());
    assert_eq!(
        release(Platform::Linux, Ok("/dev/ttyUSB0".into())),
        ReleasePlan::Rebind { port: "/dev/ttyUSB0".into() }
    );
    assert_eq!(
        release(Platform::Windows, Ok("COM3".into())),
        ReleasePlan::Restart { port: "COM3".into() }
    );
    assert_eq!(
        release(Platform::Windows, Err("none".into())),
        ReleasePlan::Refused { reason: "none".into() }
    );
    assert_eq!(
        release(Platform::Macos, Ok("p".into())),
        ReleasePlan::Refused {
            reason: "macOS 上无法单独重启串口设备，请结束占用它的进程".into()
        }
    );
    assert_eq!(
        unsupported::scan("p").unwrap_err(),
        "此平台尚不支持查找串口占用程序"
    );
    let found = scan(Ok("COM3".into()), Ok(Report { port: String::new(), ..report(vec![]) }));
    assert_eq!(found.unwrap().port, "COM3");
    assert_eq!(scan(Err("a".into()), Err("b".into())).unwrap_err(), "a");
}

#[test]
fn the_list_leaves_out_the_asker() {
    let found = report(vec![owner(4242, true), owner(4243, false), owner(9, true)]);
    assert_eq!(blockers(&found, 9), vec![0, 1]);
    assert_eq!(kill_all(&found, 9), None);
    let more = report(vec![owner(1, true), owner(9, true), owner(2, true), owner(3, false)]);
    assert_eq!(kill_all(&more, 9), Some(vec![1, 2]));
    assert_eq!(blocked_text(2), "⚠ 端口被 2 个程序占用");
    assert_eq!(hidden_hint(2, true), None);
    assert_eq!(hidden_hint(0, false), None);
    assert_eq!(
        hidden_hint(2, false).as_deref(),
        Some("另有 2 个进程受保护；以管理员身份运行可查看。")
    );
    assert!(releases_privileged(false, true));
    assert!(!releases_privileged(true, true));
}

#[test]
fn rows_offer_what_may_still_help() {
    let free = owner(1, true);
    let held = owner(2, false);
    assert_eq!(row_action(&free, &vec![], false, true), RowAction::Kill);
    assert_eq!(row_action(&free, &vec![1], true, true), RowAction::Stuck);
    assert_eq!(row_action(&free, &vec![1], false, true), RowAction::PrivilegedKill);
    assert_eq!(row_action(&held, &vec![], false, true), RowAction::PrivilegedKill);
    assert_eq!(row_action(&held, &vec![], false, false), RowAction::NeedsRights);
}

#[test]
fn a_process_that_stays_has_not_ended() {
    let mut window = PortOwnerWindow::new("COM3".into(), true);
    assert_eq!(window.phase, Phase::Scanning);
    window.scan_finished(Ok(report(vec![owner(5, true), owner(3, true)])));
    window.busy("正在结束…");
    assert_eq!(window.note.as_deref(), Some("正在结束…"));
    let attempts = vec![
        Attempt { pid: 5, direct: Ok("A".into()), privileged: None },
        Attempt { pid: 3, direct: Err("B".into()), privileged: Some(("C".into(), true)) },
        Attempt { pid: 4, direct: Err("D".into()), privileged: None },
    ];
    window.ended(&attempts, Some(report(vec![owner(5, true)])));
    assert_eq!(window.failed, vec![4, 5]);
    assert!(!window.note_ok);
    assert_eq!(
        window.note.as_deref(),
        Some("A；C；D；PID 5 仍在占用该端口，可尝试「以管理员身份结束」或「重启设备」")
    );
    assert_eq!(window.phase, Phase::Listed { report: report(vec![owner(5, true)]) });
    window.privileged_done(&Privileged::Kill { pid: 5 }, "done", true, Some(report(vec![])));
    assert!(window.note_ok && window.failed.is_empty());
    assert_eq!(window.note.as_deref(), Some("done"));
    window.privileged_done(
        &Privileged::Kill { pid: 5 },
        "done",
        true,
        Some(report(vec![owner(5, true)])),
    );
    assert!(!window.note_ok);
    assert_eq!(window.failed, vec![5]);
    window.acted(Err("no".into()), None);
    assert_eq!(window.note.as_deref(), Some("no"));
    assert!(!window.note_ok);
    window.asking_for_rights("x");
    assert_eq!(window.note.as_deref(), Some("x；请在弹出的授权窗口中确认"));
    window.rescan();
    assert_eq!(window.phase, Phase::Scanning);
    assert_eq!(window.note, None);
    window.scan_finished(Err("bad".into()));
    assert_eq!(window.phase, Phase::Failed { error: "bad".into() });
    assert!(confirm(&None, &vec![1]).is_empty());
    assert_eq!(join_note("m", &vec![]), "m");
    assert_eq!(
        join_note("m", &vec![1, 2]),
        "m；PID 1、2 仍在占用该端口，可尝试「以管理员身份结束」或「重启设备」"
    );
    assert_eq!(failures(&vec![], &vec![9, 2, 9]), vec![2, 9]);
}

#[test]
fn answers_of_the_helper_are_read_back() {
    assert_eq!(
        privileged_answer(Ok(()), Some(helper_message(Err("x".into())))),
        ("失败：x".to_string(), false)
    );
    assert_eq!(
        privileged_answer(Ok(()), Some(helper_message(Ok("已关闭".into())))),
        ("已关闭".to_string(), true)
    );
    assert_eq!(
        privileged_answer(Ok(()), None),
        ("已授权，但没有收到执行结果".to_string(), false)
    );
    assert_eq!(privileged_answer(Err("no".into()), None), ("no".to_string(), false));
    assert_eq!(privileged_answer(Ok(()), Some("失".into())), ("失".to_string(), true));
}

fn args(list: &[&str]) -> Vec<String> {
    list.iter().map(|a| a.to_string()).collect()
}

#[test]
fn ordinary_arguments_do_not_start_the_helper() {
    assert_eq!(helper_action(&args(&[])), None);
    let list = args(&["--screenshot", "shot.png", "--export-iconset", "out"]);
    assert_eq!(helper_action(&list), None);
}

#[test]
fn a_report_is_waited_for_half_a_minute() {
    assert_eq!(report_pause(0), Some(150));
    assert_eq!(report_pause(29_999), Some(150));
    assert_eq!(report_pause(30_000), None);
}

#[test]
fn the_helper_takes_its_action_from_its_flags() {
    let list = args(&["app", "--kill-pid", "4294967280", "--report", "r.txt"]);
    assert_eq!(helper_action(&list), Some(HelperAction::Kill { pid: 4294967280 }));
    assert_eq!(find_value(&list, "--report"), Some(4));
    let both = args(&["--kill-pid", "x", "--release-port", "COM3"]);
    assert_eq!(helper_action(&both), Some(HelperAction::Release { port: "COM3".into() }));
    assert_eq!(helper_action(&args(&["--kill-pid"])), None);
    assert_eq!(find_value(&args(&["--report"]), "--report"), None);
}

/// An action always answers through the report, also where it failed: that is
/// the only way back to the caller.
#[test]
fn an_action_that_cannot_run_still_reports() {
    let report = "g-terminal-helper-test.txt";
    let list = args(&["--kill-pid", "4294967280", "--report", report]);
    let Some(at) = find_value(&list, "--report") else {
        panic!("the report has a place");
    };
    assert_eq!(list[at], report);
    let Some(HelperAction::Kill { pid }) = helper_action(&list) else {
        panic!("the helper starts");
    };
    assert_eq!(pid, 4294967280);
    // Nothing has that number, nor one that is merely free.
    for (platform, pid) in [
        (Platform::Linux, pid),
        (Platform::Macos, pid),
        (Platform::Windows, pid),
        (Platform::Other, pid),
        (Platform::Linux, 1 << 30),
        (Platform::Macos, 1 << 30),
    ] {
        let mut event = KillEvent::Begin;
        let outcome = loop {
            match kill(platform, pid, 1, event) {
                KillAction::Open => event = KillEvent::Opened { ok: false },
                KillAction::Done { outcome } => break outcome,
                other => panic!("{other:?}"),
            }
        };
        let message = helper_message(outcome);
        assert!(message.contains("失败"), "{message}");
    }
    assert_eq!(helper_message(Ok("done".into())), "done");
}

#[test]
fn a_look_that_failed_lets_the_connection_go_on() {
    let kind = SessionKind::Serial(SerialProfile {
        port: "COM7".into(),
        ..Default::default()
    });
    let mut probe = SerialProbe::start(1, 2, kind);
    assert_eq!(probe.port(), "COM7");
    assert_eq!(probe.take(), None);
    probe.finish(Ok(false));
    assert_eq!(probe.take(), Some(false));
    probe.finish(Err("x".into()));
    assert_eq!(probe.take(), Some(true));
    let (tab, pane, kind) = probe.parts();
    assert_eq!((tab, pane), (1, 2));
    assert!(matches!(kind, SessionKind::Serial(p) if p.port == "COM7"));
    assert_eq!(SerialProbe::start(1, 2, SessionKind::Local("sh".into())).port(), "");
}
