//! Linux: a process that holds a port has an open descriptor whose device number
//! is the port's. The descriptors of other users need root, so an unprivileged
//! scan counts those processes as hidden instead of missing them.

use crate::config::profile::text_copy;
use crate::port_owner::{
    owner_models, said, scanned, unix, KillAction, KillEvent, Owner, OwnerModel, Report,
    ReportModel,
};
use crate::text::{chars_of, decimal, number, parse_number, push_decimal, string_of, trim, trimmed};
use vstd::prelude::*;

verus! {

/// The executable of a process.
#[derive(Debug, PartialEq, Eq)]
pub struct Executable {
    pub path: String,
    /// The last part of its path, where it has one.
    pub name: Option<String>,
}

/// One entry of the process directory, as it was read.
#[derive(Debug, PartialEq, Eq)]
pub struct Process {
    /// The name of the entry: a number, where the entry is a process.
    pub entry: String,
    /// The user it runs as, where that could be read.
    pub uid: Option<u32>,
    /// The device number behind each of its descriptors, where it could be read;
    /// nothing where the descriptors could not be listed.
    pub descriptors: Option<Vec<Option<u64>>>,
    pub executable: Option<Executable>,
    /// The name that the kernel has for it, where it could be read.
    pub command: Option<String>,
}

/// The number of the process that an entry stands for.
pub open spec fn pid_of(p: Process) -> Option<int> {
    number(p.entry@, 10, u32::MAX as int)
}

/// The user that a process runs as. One that cannot be read is nobody's.
pub open spec fn user_of(p: Process) -> u32 {
    match p.uid {
        Some(uid) => uid,
        None => u32::MAX,
    }
}

/// Whether a process has the device open.
pub open spec fn holds(p: Process, device: u64) -> bool {
    p.descriptors matches Some(list) && list@.contains(Some(device))
}

/// What a process is called.
pub open spec fn name_of(p: Process, pid: int) -> Seq<char> {
    if p.executable matches Some(exe) && exe.name is Some {
        p.executable->0.name->0@
    } else {
        match p.command {
            Some(name) => trimmed(name@),
            None => "PID "@ + decimal(pid as nat),
        }
    }
}

/// The process as an owner of the port, as the user `me` sees it.
pub open spec fn owner_of(p: Process, pid: int, me: u32) -> OwnerModel {
    OwnerModel {
        pid: pid as u32,
        name: name_of(p, pid),
        path: match p.executable {
            Some(exe) => if exe.path@.len() > 0 && exe.path@[0] == '/' {
                Some(exe.path@)
            } else {
                None
            },
            None => None,
        },
        killable: user_of(p) == me || me == 0,
    }
}

/// The processes that hold the device.
pub open spec fn owners_in(list: Seq<Process>, device: u64, me: u32) -> Seq<OwnerModel>
    decreases list.len(),
{
    if list.len() == 0 {
        Seq::empty()
    } else {
        let before = owners_in(list.drop_last(), device, me);
        match pid_of(list.last()) {
            Some(pid) if holds(list.last(), device) => before.push(owner_of(list.last(), pid, me)),
            _ => before,
        }
    }
}

/// Whether a process is one that the user `me` cannot look into.
pub open spec fn is_hidden(p: Process, me: u32) -> bool {
    pid_of(p) is Some && p.descriptors is None && user_of(p) != me && me != 0
}

/// How many processes the user `me` cannot look into.
pub open spec fn hidden_in(list: Seq<Process>, me: u32) -> nat
    decreases list.len(),
{
    if list.len() == 0 {
        0
    } else {
        hidden_in(list.drop_last(), me) + (if is_hidden(list.last(), me) {
            1nat
        } else {
            0
        })
    }
}

/// Whether the process that asks runs as root.
pub fn elevated(uid: u32) -> (yes: bool)
    ensures
        yes == (uid == 0),
{
    uid == 0
}

fn has_device(list: &Vec<Option<u64>>, device: u64) -> (yes: bool)
    ensures
        yes == list@.contains(Some(device)),
{
    let n: usize = list.len();
    let mut i: usize = 0;
    while i < n
        invariant
            i <= n,
            n == list@.len(),
            forall|k: int| 0 <= k < i ==> #[trigger] list@[k] != Some(device),
        decreases n - i,
    {
        match list[i] {
            Some(d) => {
                if d == device {
                    assert(list@[i as int] == Some(device));
                    return true;
                }
            },
            None => {},
        }
        i += 1;
    }
    false
}

/// The process as an owner of the port.
pub fn owner(p: &Process, pid: u32, killable: bool) -> (out: Owner)
    ensures
        out@ == (OwnerModel { killable, ..owner_of(*p, pid as int, 0) }),
{
    let named: Option<String> = match &p.executable {
        Some(exe) => match &exe.name {
            Some(name) => Some(text_copy(name.as_str())),
            None => None,
        },
        None => None,
    };
    let name: String = match named {
        Some(name) => name,
        None => match &p.command {
            Some(name) => string_of(trim(chars_of(name.as_str()).as_slice())),
            None => {
                let mut text = text_copy("PID ");
                push_decimal(&mut text, pid as u64);
                text
            },
        },
    };
    let path: Option<String> = match &p.executable {
        Some(exe) => {
            let chars: Vec<char> = chars_of(exe.path.as_str());
            if chars.len() > 0 && chars[0] == '/' {
                Some(text_copy(exe.path.as_str()))
            } else {
                None
            }
        },
        None => None,
    };
    let out = Owner { pid, name, path, killable };
    assert(out@ =~= (OwnerModel { killable, ..owner_of(*p, pid as int, 0) }));
    out
}

/// What a scan of a port finds: the device number of the port, or why it could
/// not be read, and the processes, or why they could not be listed.
pub open spec fn found(
    port: Seq<char>,
    device: Result<u64, String>,
    processes: Result<Vec<Process>, String>,
    me: u32,
) -> Result<ReportModel, Seq<char>> {
    match device {
        Err(e) => Err("无法读取 "@ + port + "："@ + e@),
        Ok(device) => match processes {
            Err(e) => Err("无法读取 /proc："@ + e@),
            Ok(list) => Ok(
                ReportModel {
                    port: Seq::empty(),
                    owners: owners_in(list@, device, me),
                    hidden: hidden_in(list@, me),
                },
            ),
        },
    }
}

/// What a scan of a port finds, as the user `me`.
pub fn scan(
    port: &str,
    device: Result<u64, String>,
    processes: Result<Vec<Process>, String>,
    me: u32,
) -> (out: Result<Report, String>)
    ensures
        scanned(out) == found(port@, device, processes, me),
{
    let device: u64 = match device {
        Err(e) => {
            let mut text = text_copy("无法读取 ");
            text.append(port);
            text.append("：");
            text.append(e.as_str());
            return Err(text);
        },
        Ok(device) => device,
    };
    let list: Vec<Process> = match processes {
        Err(e) => {
            let mut text = text_copy("无法读取 /proc：");
            text.append(e.as_str());
            return Err(text);
        },
        Ok(list) => list,
    };
    let mut owners: Vec<Owner> = Vec::new();
    let mut hidden: usize = 0;
    let n: usize = list.len();
    let mut i: usize = 0;
    assert(list@.take(0) =~= Seq::empty());
    assert(owner_models(owners@) =~= Seq::empty());
    while i < n
        invariant
            i <= n,
            n == list@.len(),
            hidden <= i,
            owner_models(owners@) == owners_in(list@.take(i as int), device, me),
            hidden == hidden_in(list@.take(i as int), me),
        decreases n - i,
    {
        let ghost before = owners@;
        let p: &Process = &list[i];
        proof {
            assert(list@.take(i + 1).drop_last() =~= list@.take(i as int));
            assert(list@.take(i + 1).last() == list@[i as int]);
        }
        match parse_number(chars_of(p.entry.as_str()).as_slice(), 10, u32::MAX) {
            Some(pid) => {
                let uid: u32 = match p.uid {
                    Some(uid) => uid,
                    None => u32::MAX,
                };
                match &p.descriptors {
                    None => {
                        if uid != me && me != 0 {
                            hidden += 1;
                        }
                    },
                    Some(descriptors) => {
                        if has_device(descriptors, device) {
                            owners.push(owner(p, pid, uid == me || me == 0));
                            assert(owner_models(owners@) =~= owner_models(before).push(
                                owner_of(*p, pid as int, me),
                            ));
                        }
                    },
                }
            },
            None => {},
        }
        i += 1;
    }
    assert(list@.take(n as int) =~= list@);
    let report = Report { port: String::new(), owners, hidden };
    assert(report@.port =~= Seq::empty());
    Ok(report)
}

/// Exactly the processes that have the device open are listed.
pub proof fn law_every_holder_is_listed(list: Seq<Process>, device: u64, me: u32, i: int)
    requires
        0 <= i < list.len(),
        pid_of(list[i]) is Some,
        holds(list[i], device),
    ensures
        owners_in(list, device, me).contains(owner_of(list[i], pid_of(list[i])->0, me)),
    decreases list.len(),
{
    let before = owners_in(list.drop_last(), device, me);
    let x = owner_of(list[i], pid_of(list[i])->0, me);
    if i < list.len() - 1 {
        law_every_holder_is_listed(list.drop_last(), device, me, i);
        let k = choose|k: int| 0 <= k < before.len() && before[k] == x;
        assert(owners_in(list, device, me)[k] == x);
    } else {
        assert(owners_in(list, device, me).last() == x);
    }
}

/// Who is listed has the device open.
pub proof fn law_who_is_listed_holds(list: Seq<Process>, device: u64, me: u32, k: int)
    requires
        0 <= k < owners_in(list, device, me).len(),
    ensures
        exists|i: int|
            0 <= i < list.len() && holds(#[trigger] list[i], device) && pid_of(list[i]) is Some
                && owners_in(list, device, me)[k] == owner_of(list[i], pid_of(list[i])->0, me),
    decreases list.len(),
{
    let before = owners_in(list.drop_last(), device, me);
    let last = list.len() - 1;
    if k < before.len() {
        law_who_is_listed_holds(list.drop_last(), device, me, k);
        let i = choose|i: int|
            0 <= i < list.drop_last().len() && holds(#[trigger] list.drop_last()[i], device)
                && pid_of(list.drop_last()[i]) is Some && before[k] == owner_of(
                list.drop_last()[i],
                pid_of(list.drop_last()[i])->0,
                me,
            );
        assert(holds(list[i], device));
    } else {
        assert(holds(list[last], device));
    }
}

/// Nothing is hidden from root.
pub proof fn law_root_sees_everything(list: Seq<Process>)
    ensures
        hidden_in(list, 0) == 0,
    decreases list.len(),
{
    if list.len() > 0 {
        law_root_sees_everything(list.drop_last());
    }
}

/// What to do next to a process that is to end.
pub fn kill(pid: u32, me: u32, event: KillEvent) -> (out: KillAction)
    ensures
        out@ == unix::kill_step(pid, me, event),
{
    unix::kill(pid, me, event)
}

/// Why a device file could not be written.
#[derive(Debug, PartialEq, Eq)]
pub struct WriteFailure {
    /// The user is not allowed to.
    pub denied: bool,
    /// The error in words.
    pub text: String,
}

/// What a failure to write says, by what was to be done.
pub open spec fn described(action: Seq<char>, failure: WriteFailure) -> Seq<char> {
    if failure.denied {
        action + "设备需要 root 权限，请以 root 运行或改用结束进程"@
    } else {
        action + "设备失败："@ + failure.text@
    }
}

/// What a failure to write says, by what was to be done.
pub fn describe(action: &str, failure: &WriteFailure) -> (out: String)
    ensures
        out@ == described(action@, *failure),
{
    let mut out = text_copy(action);
    if failure.denied {
        out.append("设备需要 root 权限，请以 root 运行或改用结束进程");
    } else {
        out.append("设备失败：");
        out.append(failure.text.as_str());
    }
    out
}

/// What is known of the USB interface of a device.
#[derive(Debug, PartialEq, Eq)]
pub enum Interface {
    /// The device stands under none.
    Missing,
    /// It has no name.
    Unnamed,
    Named { name: String },
}

/// What is known of the driver of an interface.
#[derive(Debug, PartialEq, Eq)]
pub enum Driver {
    /// It has none.
    Missing,
    /// Its driver has no name.
    Unnamed,
    Named { name: String },
}

/// What has happened to a device that is to be restarted.
#[derive(Debug, PartialEq, Eq)]
pub enum ReleaseEvent {
    /// Nothing yet. The last part of the port's path, where it has one.
    Begin { tty: Option<String> },
    /// Its device was looked up.
    Located { device: Result<Interface, String> },
    /// The driver of its interface was looked up.
    Bound { interface: String, found: Driver },
    /// Its driver was taken away.
    Unbound { interface: String, driver: String, failure: Option<WriteFailure> },
    /// Its driver was given back.
    Rebound { interface: String, driver: String, failure: Option<WriteFailure> },
}

/// What to do to a device that is to be restarted.
#[derive(Debug, PartialEq, Eq)]
pub enum ReleaseAction {
    /// Look up the device behind a path.
    Locate { path: String },
    /// Look up the driver of an interface.
    FindDriver { interface: String },
    /// Write a text to a file, after that many milliseconds.
    Write { file: String, text: String, after_ms: u64 },
    /// Nothing more: this is what came of it.
    Done { outcome: Result<String, String> },
}

/// What to do to a device that is to be restarted, as a value.
#[verifier::ext_equal]
pub enum ReleaseStep {
    Locate { path: Seq<char> },
    FindDriver { interface: Seq<char> },
    Write { file: Seq<char>, text: Seq<char>, after_ms: u64 },
    Done { outcome: Result<Seq<char>, Seq<char>> },
}

impl View for ReleaseAction {
    type V = ReleaseStep;

    open spec fn view(&self) -> ReleaseStep {
        match self {
            ReleaseAction::Locate { path } => ReleaseStep::Locate { path: path@ },
            ReleaseAction::FindDriver { interface } => ReleaseStep::FindDriver {
                interface: interface@,
            },
            ReleaseAction::Write { file, text, after_ms } => ReleaseStep::Write {
                file: file@,
                text: text@,
                after_ms: *after_ms,
            },
            ReleaseAction::Done { outcome } => ReleaseStep::Done { outcome: said(*outcome) },
        }
    }
}

/// How long a device is left without its driver, in milliseconds.
pub const REBIND_MS: u64 = 400;

/// The file that takes an interface away from a driver, or gives it back.
pub open spec fn driver_file(driver: Seq<char>, what: Seq<char>) -> Seq<char> {
    "/sys/bus/usb/drivers/"@ + driver + "/"@ + what
}

/// What to do next to the device under a port that is to be restarted. Taking
/// its driver away drops every open descriptor, which is what frees the port;
/// giving it back restores the device.
pub open spec fn release_step(port: Seq<char>, event: ReleaseEvent) -> ReleaseStep {
    match event {
        ReleaseEvent::Begin { tty: None } => ReleaseStep::Done {
            outcome: Err("无法从 "@ + port + " 取出设备名"@),
        },
        ReleaseEvent::Begin { tty: Some(tty) } => ReleaseStep::Locate {
            path: "/sys/class/tty/"@ + tty@ + "/device"@,
        },
        ReleaseEvent::Located { device: Err(e) } => ReleaseStep::Done {
            outcome: Err(port + " 不是可重启的串口设备（"@ + e@ + "）"@),
        },
        ReleaseEvent::Located { device: Ok(Interface::Missing) } => ReleaseStep::Done {
            outcome: Err("无法定位 USB 接口"@),
        },
        ReleaseEvent::Located { device: Ok(Interface::Unnamed) } => ReleaseStep::Done {
            outcome: Err("无法定位 USB 接口名"@),
        },
        ReleaseEvent::Located { device: Ok(Interface::Named { name }) } => ReleaseStep::FindDriver {
            interface: name@,
        },
        ReleaseEvent::Bound { found: Driver::Missing, .. } => ReleaseStep::Done {
            outcome: Err(
                port + " 不是 USB 转串口设备，只能结束占用它的进程"@,
            ),
        },
        ReleaseEvent::Bound { found: Driver::Unnamed, .. } => ReleaseStep::Done {
            outcome: Err("无法识别 USB 驱动"@),
        },
        ReleaseEvent::Bound { interface, found: Driver::Named { name } } => ReleaseStep::Write {
            file: driver_file(name@, "unbind"@),
            text: interface@ + "\n"@,
            after_ms: 0,
        },
        ReleaseEvent::Unbound { failure: Some(failure), .. } => ReleaseStep::Done {
            outcome: Err(described("解绑"@, failure)),
        },
        ReleaseEvent::Unbound { interface, driver, failure: None } => ReleaseStep::Write {
            file: driver_file(driver@, "bind"@),
            text: interface@ + "\n"@,
            after_ms: REBIND_MS,
        },
        ReleaseEvent::Rebound { failure: Some(failure), .. } => ReleaseStep::Done {
            outcome: Err(described("重新绑定"@, failure)),
        },
        ReleaseEvent::Rebound { interface, driver, failure: None } => ReleaseStep::Done {
            outcome: Ok(
                "已重启 "@ + interface@ + "（驱动 "@ + driver@
                    + "），现在可以重新连接"@,
            ),
        },
    }
}

fn join3(a: &str, b: &str, c: &str) -> (out: String)
    ensures
        out@ == a@ + b@ + c@,
{
    let mut out = text_copy(a);
    out.append(b);
    out.append(c);
    out
}

fn driver_path(driver: &str, what: &str) -> (out: String)
    ensures
        out@ == driver_file(driver@, what@),
{
    let mut out = join3("/sys/bus/usb/drivers/", driver, "/");
    out.append(what);
    out
}

fn refuse(text: String) -> (out: ReleaseAction)
    ensures
        out@ == (ReleaseStep::Done { outcome: Err(text@) }),
{
    ReleaseAction::Done { outcome: Err(text) }
}

fn write_name(driver: &str, what: &str, interface: &str, after_ms: u64) -> (out: ReleaseAction)
    ensures
        out@ == (ReleaseStep::Write {
            file: driver_file(driver@, what@),
            text: interface@ + "\n"@,
            after_ms,
        }),
{
    let mut text = text_copy(interface);
    text.append("\n");
    ReleaseAction::Write { file: driver_path(driver, what), text, after_ms }
}

/// What to do next to the device under a port that is to be restarted.
pub fn release(port: &str, event: ReleaseEvent) -> (out: ReleaseAction)
    ensures
        out@ == release_step(port@, event),
{
    match event {
        ReleaseEvent::Begin { tty } => match tty {
            None => refuse(join3("无法从 ", port, " 取出设备名")),
            Some(tty) => ReleaseAction::Locate {
                path: join3("/sys/class/tty/", tty.as_str(), "/device"),
            },
        },
        ReleaseEvent::Located { device } => match device {
            Err(e) => {
                let mut text = join3(port, " 不是可重启的串口设备（", e.as_str());
                text.append("）");
                refuse(text)
            },
            Ok(Interface::Missing) => refuse(text_copy("无法定位 USB 接口")),
            Ok(Interface::Unnamed) => refuse(text_copy("无法定位 USB 接口名")),
            Ok(Interface::Named { name }) => ReleaseAction::FindDriver { interface: name },
        },
        ReleaseEvent::Bound { interface, found } => match found {
            Driver::Missing => {
                let mut text = text_copy(port);
                text.append(" 不是 USB 转串口设备，只能结束占用它的进程");
                refuse(text)
            },
            Driver::Unnamed => refuse(text_copy("无法识别 USB 驱动")),
            Driver::Named { name } => write_name(name.as_str(), "unbind", interface.as_str(), 0),
        },
        ReleaseEvent::Unbound { interface, driver, failure } => match failure {
            Some(failure) => refuse(describe("解绑", &failure)),
            None => write_name(driver.as_str(), "bind", interface.as_str(), REBIND_MS),
        },
        ReleaseEvent::Rebound { interface, driver, failure } => match failure {
            Some(failure) => refuse(describe("重新绑定", &failure)),
            None => {
                let mut text = join3("已重启 ", interface.as_str(), "（驱动 ");
                text.append(driver.as_str());
                text.append("），现在可以重新连接");
                ReleaseAction::Done { outcome: Ok(text) }
            },
        },
    }
}

/// A driver that was taken away is given back: the one is always followed by
/// the other, for the same interface and the same driver.
pub proof fn law_a_driver_is_given_back(port: Seq<char>, interface: String, driver: String)
    ensures
        release_step(port, ReleaseEvent::Bound {
            interface,
            found: Driver::Named { name: driver },
        }) == (ReleaseStep::Write {
            file: driver_file(driver@, "unbind"@),
            text: interface@ + "\n"@,
            after_ms: 0,
        }),
        release_step(port, ReleaseEvent::Unbound { interface, driver, failure: None }) == (
        ReleaseStep::Write {
            file: driver_file(driver@, "bind"@),
            text: interface@ + "\n"@,
            after_ms: REBIND_MS,
        }),
{
}

/// What is listed of a process: its number, its name, the path of its program where that is
/// a path from the root, and whether it may be ended, which root and its own user may.
pub proof fn law_what_is_listed_of_a_process(p: Process, pid: int, me: u32)
    requires
        0 <= pid <= u32::MAX,
    ensures
        owner_of(p, pid, me).pid == pid,
        me == 0 ==> owner_of(p, pid, me).killable,
        p.uid == Some(me) ==> owner_of(p, pid, me).killable,
        me != 0 && (p.uid matches Some(uid) ==> uid != me) && me != u32::MAX ==> !owner_of(
            p,
            pid,
            me,
        ).killable,
        p.executable is None ==> owner_of(p, pid, me).path is None,
        p.executable matches Some(exe) ==> (owner_of(p, pid, me).path == (if exe.path@.len() > 0
            && exe.path@[0] == '/' {
            Some(exe.path@)
        } else {
            None
        })),
        (p.executable matches Some(exe) && exe.name is Some) ==> owner_of(p, pid, me).name
            == p.executable->0.name->0@,
        !(p.executable matches Some(exe) && exe.name is Some) && p.command is Some ==> owner_of(
            p,
            pid,
            me,
        ).name == trimmed(p.command->0@),
        !(p.executable matches Some(exe) && exe.name is Some) && p.command is None ==> owner_of(
            p,
            pid,
            me,
        ).name == seq!['P', 'I', 'D', ' '] + decimal(pid as nat),
{
    reveal_strlit("PID ");
    assert("PID "@ =~= seq!['P', 'I', 'D', ' ']);
}

/// A process holds the device where one of its descriptors leads there. Where its
/// descriptors cannot be read, it is counted as hidden, but for root and for the
/// processes of the same user.
pub proof fn law_what_is_known_of_a_process(p: Process, device: u64, me: u32, i: int)
    ensures
        p.descriptors is None ==> !holds(p, device),
        p.descriptors matches Some(list) ==> !is_hidden(p, me) && (0 <= i < list@.len() && list@[i]
            == Some(device) ==> holds(p, device)),
        p.descriptors matches Some(list) ==> ((forall|k: int|
            0 <= k < list@.len() ==> #[trigger] list@[k] != Some(device)) ==> !holds(p, device)),
        pid_of(p) is None ==> !is_hidden(p, me),
        me == 0 || p.uid == Some(me) ==> !is_hidden(p, me),
        pid_of(p) is Some && p.descriptors is None && me != 0 && (p.uid matches Some(uid) && uid
            != me) ==> is_hidden(p, me),
        pid_of(p) == number(p.entry@, 10, 4294967295),
{
}

/// Processes are listed and counted in their order, one by one: each is listed where it has
/// a number and holds the device, and counted where it is hidden.
pub proof fn law_processes_are_looked_at_one_by_one(
    list: Seq<Process>,
    p: Process,
    device: u64,
    me: u32,
)
    ensures
        owners_in(Seq::empty(), device, me).len() == 0,
        hidden_in(Seq::empty(), me) == 0,
        owners_in(list.push(p), device, me) == (if pid_of(p) is Some && holds(p, device) {
            owners_in(list, device, me).push(owner_of(p, pid_of(p)->0, me))
        } else {
            owners_in(list, device, me)
        }),
        hidden_in(list.push(p), me) == hidden_in(list, me) + (if is_hidden(p, me) {
            1int
        } else {
            0
        }),
{
    assert(list.push(p).drop_last() =~= list);
}

/// A search that cannot start says why, the device before the processes.
pub proof fn law_what_a_search_of_processes_gives(
    port: Seq<char>,
    device: Result<u64, String>,
    processes: Result<Vec<Process>, String>,
    me: u32,
)
    ensures
        device matches Err(e) ==> found(port, device, processes, me) == Err::<
            ReportModel,
            Seq<char>,
        >("无法读取 "@ + port + "："@ + e@),
        device is Ok ==> (processes matches Err(e) ==> found(port, device, processes, me) == Err::<
            ReportModel,
            Seq<char>,
        >("无法读取 /proc："@ + e@)),
        device matches Ok(d) ==> (processes matches Ok(list) ==> (found(
            port,
            device,
            processes,
            me,
        ) matches Ok(r) && r.owners == owners_in(list@, d, me) && r.hidden == hidden_in(list@, me)
            && r.port.len() == 0)),
{
}

/// A USB adapter is restarted in order: its device is looked for below the class of
/// terminals, its driver is found, the interface is written to the file that unbinds it,
/// and 400 ms later to the one that binds it again.
pub proof fn law_how_an_adapter_is_restarted(
    port: Seq<char>,
    tty: String,
    interface: String,
    driver: String,
)
    ensures
        release_step(port, ReleaseEvent::Begin { tty: Some(tty) }) == (ReleaseStep::Locate {
            path: "/sys/class/tty/"@ + tty@ + "/device"@,
        }),
        release_step(
            port,
            ReleaseEvent::Located { device: Ok(Interface::Named { name: interface }) },
        ) == (ReleaseStep::FindDriver { interface: interface@ }),
        release_step(
            port,
            ReleaseEvent::Bound { interface, found: Driver::Named { name: driver } },
        ) == (ReleaseStep::Write {
            file: "/sys/bus/usb/drivers/"@ + driver@ + "/"@ + "unbind"@,
            text: interface@ + seq!['\n'],
            after_ms: 0,
        }),
        release_step(port, ReleaseEvent::Unbound { interface, driver, failure: None }) == (
        ReleaseStep::Write {
            file: "/sys/bus/usb/drivers/"@ + driver@ + "/"@ + "bind"@,
            text: interface@ + seq!['\n'],
            after_ms: 400,
        }),
        release_step(port, ReleaseEvent::Rebound { interface, driver, failure: None }) == (
        ReleaseStep::Done {
            outcome: Ok(
                "已重启 "@ + interface@ + "（驱动 "@ + driver@ + "），现在可以重新连接"@,
            ),
        }),
{
    reveal_strlit("\n");
    assert("\n"@ =~= seq!['\n']);
}

/// A restart ends with a reason where something is missing or refused, and never with a
/// success there.
pub proof fn law_why_an_adapter_is_not_restarted(
    port: Seq<char>,
    interface: String,
    driver: String,
    e: String,
    failure: WriteFailure,
)
    ensures
        release_step(port, ReleaseEvent::Begin { tty: None }) == (ReleaseStep::Done {
            outcome: Err("无法从 "@ + port + " 取出设备名"@),
        }),
        release_step(port, ReleaseEvent::Located { device: Err(e) }) == (ReleaseStep::Done {
            outcome: Err(port + " 不是可重启的串口设备（"@ + e@ + "）"@),
        }),
        release_step(port, ReleaseEvent::Located { device: Ok(Interface::Missing) }) == (
        ReleaseStep::Done { outcome: Err("无法定位 USB 接口"@) }),
        release_step(port, ReleaseEvent::Located { device: Ok(Interface::Unnamed) }) == (
        ReleaseStep::Done { outcome: Err("无法定位 USB 接口名"@) }),
        release_step(port, ReleaseEvent::Bound { interface, found: Driver::Missing }) == (
        ReleaseStep::Done {
            outcome: Err(port + " 不是 USB 转串口设备，只能结束占用它的进程"@),
        }),
        release_step(port, ReleaseEvent::Bound { interface, found: Driver::Unnamed }) == (
        ReleaseStep::Done { outcome: Err("无法识别 USB 驱动"@) }),
        release_step(port, ReleaseEvent::Unbound { interface, driver, failure: Some(failure) }) == (
        ReleaseStep::Done {
            outcome: Err(
                if failure.denied {
                    "解绑"@ + "设备需要 root 权限，请以 root 运行或改用结束进程"@
                } else {
                    "解绑"@ + "设备失败："@ + failure.text@
                },
            ),
        }),
        release_step(port, ReleaseEvent::Rebound { interface, driver, failure: Some(failure) }) == (
        ReleaseStep::Done {
            outcome: Err(
                if failure.denied {
                    "重新绑定"@ + "设备需要 root 权限，请以 root 运行或改用结束进程"@
                } else {
                    "重新绑定"@ + "设备失败："@ + failure.text@
                },
            ),
        }),
{
}

/// The model of a step tells what is done and holds what it is done with.
pub proof fn law_models_hold_the_step(
    a: String,
    b: String,
    ms: u64,
    outcome: Result<String, String>,
)
    ensures
        (ReleaseAction::Locate { path: a })@ == (ReleaseStep::Locate { path: a@ }),
        (ReleaseAction::FindDriver { interface: a })@ == (ReleaseStep::FindDriver {
            interface: a@,
        }),
        (ReleaseAction::Write { file: a, text: b, after_ms: ms })@ == (ReleaseStep::Write {
            file: a@,
            text: b@,
            after_ms: ms,
        }),
        (ReleaseAction::Done { outcome })@ == (ReleaseStep::Done { outcome: said(outcome) }),
{
}

} // verus!
