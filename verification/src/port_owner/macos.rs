//! macOS: a process that holds a port has a descriptor that is a file node whose
//! path is the device. The descriptors of other users need root, so those
//! processes are counted as hidden rather than missed. A device cannot be
//! restarted on its own here.

use crate::config::profile::text_copy;
use crate::port_owner::{
    only_self, owner_models, scanned, unix, KillAction, KillEvent, Owner, OwnerModel, Report,
    ReportModel,
};
use crate::text::{decimal, optional, push_decimal};
use vstd::prelude::*;

verus! {

/// The type of a descriptor that is a file node.
pub const FILE_NODE: u32 = 1;

/// One descriptor of a process.
#[derive(Clone, Copy, Debug, PartialEq, Eq, Structural)]
pub struct Descriptor {
    pub fd_type: u32,
    /// Its path could be read.
    pub named: bool,
    /// Its path is the device's.
    pub is_target: bool,
    /// Its path leads to the device once links are followed.
    pub leads_to_target: bool,
}

/// One process, as it was read.
#[derive(Debug, PartialEq, Eq)]
pub struct Process {
    pub pid: i32,
    pub name: Option<String>,
    /// The path of its executable, where it could be read and is absolute.
    pub executable: Option<String>,
    /// Its descriptors, where they could be listed.
    pub descriptors: Option<Vec<Descriptor>>,
}

/// Whether a descriptor is the device.
pub open spec fn is_device(d: Descriptor) -> bool {
    d.fd_type == FILE_NODE && d.named && (d.is_target || d.leads_to_target)
}

/// Whether a process is looked into: it is another one than `own`, and not a
/// task of the system that has no name.
pub open spec fn is_seen(p: Process, own: u32) -> bool {
    p.pid > 0 && p.pid != own && (p.name is Some || p.executable is Some)
}

/// Whether a process has the device open.
pub open spec fn holds(p: Process) -> bool {
    p.descriptors matches Some(list) && exists|i: int|
        0 <= i < list@.len() && is_device(#[trigger] list@[i])
}

/// The process as an owner of the port. Only processes that this user may look
/// into are listed, and those this user may end.
pub open spec fn owner_of(p: Process) -> OwnerModel {
    OwnerModel {
        pid: p.pid as u32,
        name: match p.name {
            Some(name) => name@,
            None => "PID "@ + decimal(p.pid as nat),
        },
        path: optional(p.executable),
        killable: true,
    }
}

/// The processes that hold the device.
pub open spec fn owners_in(list: Seq<Process>, own: u32) -> Seq<OwnerModel>
    decreases list.len(),
{
    if list.len() == 0 {
        Seq::empty()
    } else {
        let before = owners_in(list.drop_last(), own);
        if is_seen(list.last(), own) && holds(list.last()) {
            before.push(owner_of(list.last()))
        } else {
            before
        }
    }
}

/// How many processes the user `me` cannot look into.
pub open spec fn hidden_in(list: Seq<Process>, own: u32, me: u32) -> nat
    decreases list.len(),
{
    if list.len() == 0 {
        0
    } else {
        hidden_in(list.drop_last(), own, me) + (if is_seen(list.last(), own)
            && list.last().descriptors is None && me != 0 {
            1nat
        } else {
            0
        })
    }
}

/// Whether the process that asks runs as root.
pub fn elevated(uid: u32) -> (yes: bool)
    ensures
        yes == (uid == 0),
{
    uid == 0
}

/// Whether a port is free: nothing but the process `own` has it open.
pub fn port_is_free(report: Result<Report, String>, own: u32) -> (out: Result<bool, String>)
    ensures
        match report {
            Ok(r) => out == Ok::<bool, String>(only_self(r@.owners, own)),
            Err(e) => out matches Err(x) && x@ == e@,
        },
{
    match report {
        Err(e) => Err(e),
        Ok(r) => {
            let n: usize = r.owners.len();
            let mut i: usize = 0;
            while i < n
                invariant
                    i <= n,
                    n == r.owners@.len(),
                    report == Ok::<Report, String>(r),
                    forall|k: int| 0 <= k < i ==> (#[trigger] r@.owners[k]).pid == own,
                decreases n - i,
            {
                assert(r@.owners[i as int] == r.owners@[i as int]@);
                if !r.owners[i].is_self(own) {
                    return Ok(false);
                }
                i += 1;
            }
            Ok(true)
        },
    }
}

fn has_device(list: &Vec<Descriptor>) -> (yes: bool)
    ensures
        yes == exists|i: int| 0 <= i < list@.len() && is_device(#[trigger] list@[i]),
{
    let n: usize = list.len();
    let mut i: usize = 0;
    while i < n
        invariant
            i <= n,
            n == list@.len(),
            forall|k: int| 0 <= k < i ==> !is_device(#[trigger] list@[k]),
        decreases n - i,
    {
        let d: Descriptor = list[i];
        if d.fd_type == FILE_NODE && d.named && (d.is_target || d.leads_to_target) {
            assert(is_device(list@[i as int]));
            return true;
        }
        i += 1;
    }
    false
}

fn owner(p: &Process) -> (out: Owner)
    requires
        p.pid > 0,
    ensures
        out@ == owner_of(*p),
{
    let name: String = match &p.name {
        Some(name) => text_copy(name.as_str()),
        None => {
            let mut text = text_copy("PID ");
            push_decimal(&mut text, p.pid as u64);
            text
        },
    };
    let path: Option<String> = match &p.executable {
        Some(path) => Some(text_copy(path.as_str())),
        None => None,
    };
    let out = Owner { pid: p.pid as u32, name, path, killable: true };
    assert(out@ =~= owner_of(*p));
    out
}

/// What a scan of a port finds, as the process `own` of the user `me`. The port
/// could be looked up, or could not for a reason.
pub fn scan(
    port: &str,
    target: Result<(), String>,
    processes: &Vec<Process>,
    own: u32,
    me: u32,
) -> (out: Result<Report, String>)
    ensures
        scanned(out) == (match target {
            Err(e) => Err("无法读取 "@ + port@ + "："@ + e@),
            Ok(_) => Ok(
                ReportModel {
                    port: Seq::empty(),
                    owners: owners_in(processes@, own),
                    hidden: hidden_in(processes@, own, me),
                },
            ),
        }),
{
    match target {
        Err(e) => {
            let mut text = text_copy("无法读取 ");
            text.append(port);
            text.append("：");
            text.append(e.as_str());
            return Err(text);
        },
        Ok(_) => {},
    }
    let mut owners: Vec<Owner> = Vec::new();
    let mut hidden: usize = 0;
    let n: usize = processes.len();
    let mut i: usize = 0;
    assert(processes@.take(0) =~= Seq::empty());
    assert(owner_models(owners@) =~= Seq::empty());
    while i < n
        invariant
            i <= n,
            n == processes@.len(),
            hidden <= i,
            owner_models(owners@) == owners_in(processes@.take(i as int), own),
            hidden == hidden_in(processes@.take(i as int), own, me),
        decreases n - i,
    {
        let ghost before = owners@;
        let p: &Process = &processes[i];
        proof {
            assert(processes@.take(i + 1).drop_last() =~= processes@.take(i as int));
            assert(processes@.take(i + 1).last() == processes@[i as int]);
        }
        if p.pid > 0 && p.pid as u32 != own && (p.name.is_some() || p.executable.is_some()) {
            match &p.descriptors {
                None => {
                    if me != 0 {
                        hidden += 1;
                    }
                },
                Some(descriptors) => {
                    if has_device(descriptors) {
                        owners.push(owner(p));
                        assert(owner_models(owners@) =~= owner_models(before).push(owner_of(*p)));
                    }
                },
            }
        }
        i += 1;
    }
    assert(processes@.take(n as int) =~= processes@);
    let report = Report { port: String::new(), owners, hidden };
    assert(report@.port =~= Seq::empty());
    Ok(report)
}

/// The process that asks is never among the owners.
pub proof fn law_the_asker_is_not_listed(list: Seq<Process>, own: u32, k: int)
    requires
        0 <= k < owners_in(list, own).len(),
    ensures
        owners_in(list, own)[k].pid != own,
    decreases list.len(),
{
    let before = owners_in(list.drop_last(), own);
    if k < before.len() {
        law_the_asker_is_not_listed(list.drop_last(), own, k);
    }
}

/// Nothing is hidden from root.
pub proof fn law_root_sees_everything(list: Seq<Process>, own: u32)
    ensures
        hidden_in(list, own, 0) == 0,
    decreases list.len(),
{
    if list.len() > 0 {
        law_root_sees_everything(list.drop_last(), own);
    }
}

/// What to do next to a process that is to end.
pub fn kill(pid: u32, me: u32, event: KillEvent) -> (out: KillAction)
    ensures
        out@ == unix::kill_step(pid, me, event),
{
    unix::kill(pid, me, event)
}

/// Ends a process with more rights: there is no way to ask for them.
pub fn elevate_kill(_pid: u32) -> (out: Result<(), String>)
    ensures
        out matches Err(e) && e@ == "macOS 上请以 root 重新运行本程序后再结束该进程"@,
{
    Err(text_copy("macOS 上请以 root 重新运行本程序后再结束该进程"))
}

/// Restarts a device with more rights: there is no way to ask for them.
pub fn elevate_release(_port: &str) -> (out: Result<(), String>)
    ensures
        out matches Err(e) && e@ == "macOS 上请以 root 重新运行本程序"@,
{
    Err(text_copy("macOS 上请以 root 重新运行本程序"))
}

/// Restarts the device under a port: that cannot be done here.
pub fn release(_port: &str) -> (out: Result<String, String>)
    ensures
        out matches Err(e) && e@ == "macOS 上无法单独重启串口设备，请结束占用它的进程"@,
{
    Err(text_copy("macOS 上无法单独重启串口设备，请结束占用它的进程"))
}

/// A descriptor leads to the device where it is that of a file, its path could be read, and
/// that path is the device or leads to it.
pub proof fn law_which_descriptors_count(d: Descriptor)
    ensures
        is_device(d) <==> d.fd_type == 1 && d.named && (d.is_target || d.leads_to_target),
{
}

/// A process is looked at where it has a number, is not this program, and can be told by
/// its name or its program. It holds the device where one of its descriptors leads there.
pub proof fn law_which_processes_count(p: Process, own: u32, i: int)
    ensures
        p.pid <= 0 ==> !is_seen(p, own),
        p.pid == own ==> !is_seen(p, own),
        p.name is None && p.executable is None ==> !is_seen(p, own),
        p.pid > 0 && p.pid != own && (p.name is Some || p.executable is Some) ==> is_seen(p, own),
        p.descriptors is None ==> !holds(p),
        p.descriptors matches Some(list) ==> (0 <= i < list@.len() && is_device(list@[i]) ==> holds(
            p,
        )),
        p.descriptors matches Some(list) ==> ((forall|k: int|
            0 <= k < list@.len() ==> !is_device(#[trigger] list@[k])) ==> !holds(p)),
{
}

/// What is listed of a process: its number, its name or else its number again, and its
/// program. All of them may be tried to be ended.
pub proof fn law_what_is_listed_of_a_process(p: Process)
    requires
        p.pid > 0,
    ensures
        owner_of(p).pid == p.pid,
        owner_of(p).killable,
        p.name matches Some(name) ==> owner_of(p).name == name@,
        p.name is None ==> owner_of(p).name == seq!['P', 'I', 'D', ' '] + decimal(p.pid as nat),
        p.executable matches Some(path) ==> owner_of(p).path == Some(path@),
        p.executable is None ==> owner_of(p).path is None,
{
    reveal_strlit("PID ");
    assert("PID "@ =~= seq!['P', 'I', 'D', ' ']);
}

/// Processes are listed and counted in their order, one by one: each that is looked at is
/// listed where it holds the device, and counted as hidden where its descriptors cannot
/// be read, but for root.
pub proof fn law_processes_are_looked_at_one_by_one(
    list: Seq<Process>,
    p: Process,
    own: u32,
    me: u32,
)
    ensures
        owners_in(Seq::empty(), own).len() == 0,
        hidden_in(Seq::empty(), own, me) == 0,
        owners_in(list.push(p), own) == (if is_seen(p, own) && holds(p) {
            owners_in(list, own).push(owner_of(p))
        } else {
            owners_in(list, own)
        }),
        hidden_in(list.push(p), own, me) == hidden_in(list, own, me) + (if is_seen(p, own)
            && p.descriptors is None && me != 0 {
            1int
        } else {
            0
        }),
{
    assert(list.push(p).drop_last() =~= list);
}

} // verus!
