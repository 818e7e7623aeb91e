//! Windows: a serial port is held by whichever process owns a handle to its
//! device object. The handle table of the system is walked, and the name of
//! every handle that could be a port is compared with the names that the port
//! goes by. A process whose handles cannot be looked into is counted as hidden.

use crate::config::profile::text_copy;
use crate::config::search::{hex_char, hex_digit};
use crate::port_owner::{
    said, scanned, KillAction, KillEvent, KillStep, Owner, OwnerModel, Report, ReportModel,
};
use crate::text::{
    chars_of, contents, decimal, has_run, holds_run, lower_chars, lowered, optional, push_decimal,
    same_ignoring_case, same_letters, trim, trimmed, utf16,
};
use vstd::prelude::*;
use vstd::slice::slice_subrange;

verus! {

/// Whether the token of the process that asks could be queried, and says that
/// it is elevated.
pub fn elevated(token: Option<u32>) -> (yes: bool)
    ensures
        yes == (token is Some && token != Some(0u32)),
{
    match token {
        Some(value) => value != 0,
        None => false,
    }
}

/// What stands under a port in the map of serial devices.
#[derive(Debug, PartialEq, Eq)]
pub struct MapEntry {
    /// The device object.
    pub device: String,
    /// The name of the port.
    pub port: String,
}

/// The names by which the map knows a port.
pub open spec fn mapped_names(port: Seq<char>, map: Seq<MapEntry>) -> Seq<Seq<char>>
    decreases map.len(),
{
    if map.len() == 0 {
        Seq::empty()
    } else {
        let before = mapped_names(port, map.drop_last());
        let entry = map.last();
        if same_letters(trimmed(entry.port@), port) {
            before.push(entry.device@).push("\\??\\GLOBALROOT"@ + entry.device@)
        } else {
            before
        }
    }
}

/// The names that a handle to a port can carry: those under which a caller may
/// have opened it, and the device objects that the map points at.
pub open spec fn port_names(port: Seq<char>, map: Seq<MapEntry>) -> Seq<Seq<char>> {
    seq!["\\??\\"@ + port, "\\\\.\\"@ + port, "\\\\?\\"@ + port] + mapped_names(port, map)
}

fn prefixed(prefix: &str, rest: &str) -> (out: String)
    ensures
        out@ == prefix@ + rest@,
{
    let mut out = text_copy(prefix);
    out.append(rest);
    out
}

/// The names that a handle to a port can carry.
pub fn device_names(port: &str, map: &Vec<MapEntry>) -> (names: Vec<String>)
    ensures
        contents(names@) == port_names(port@, map@),
{
    let mut names: Vec<String> = Vec::new();
    names.push(prefixed("\\??\\", port));
    names.push(prefixed("\\\\.\\", port));
    names.push(prefixed("\\\\?\\", port));
    let p: Vec<char> = chars_of(port);
    let n: usize = map.len();
    let mut i: usize = 0;
    assert(map@.take(0) =~= Seq::empty());
    assert(contents(names@) =~= port_names(port@, map@.take(0)));
    while i < n
        invariant
            i <= n,
            n == map@.len(),
            p@ == port@,
            contents(names@) == port_names(port@, map@.take(i as int)),
        decreases n - i,
    {
        let ghost before = names@;
        let entry: &MapEntry = &map[i];
        proof {
            assert(map@.take(i + 1).drop_last() =~= map@.take(i as int));
            assert(map@.take(i + 1).last() == map@[i as int]);
        }
        if same_ignoring_case(trim(chars_of(entry.port.as_str()).as_slice()), p.as_slice()) {
            names.push(text_copy(entry.device.as_str()));
            names.push(prefixed("\\??\\GLOBALROOT", entry.device.as_str()));
            assert(contents(names@) =~= contents(before).push(entry.device@).push(
                "\\??\\GLOBALROOT"@ + entry.device@,
            ));
            assert(port_names(port@, map@.take(i + 1)) =~= port_names(
                port@,
                map@.take(i as int),
            ).push(entry.device@).push("\\??\\GLOBALROOT"@ + entry.device@));
        }
        i += 1;
    }
    assert(map@.take(n as int) =~= map@);
    names
}

/// Whether a handle's name ends in a name of the port, up to ASCII case: a
/// driver may put a path before it.
pub open spec fn is_named(name: Seq<char>, target: Seq<char>) -> bool {
    name.len() >= target.len() && same_letters(name.skip(name.len() - target.len()), target)
}

/// Whether a handle's name is one of the port.
pub fn name_matches(name: &str, target: &str) -> (yes: bool)
    ensures
        yes == is_named(name@, target@),
{
    let a: Vec<char> = chars_of(name);
    let b: Vec<char> = chars_of(target);
    let n: usize = a.len();
    let m: usize = b.len();
    if n < m {
        return false;
    }
    let tail = slice_subrange(a.as_slice(), n - m, n);
    assert(tail@ =~= name@.skip(n - m));
    same_ignoring_case(tail, b.as_slice())
}

/// A name matches itself, also behind anything else.
pub proof fn law_names_match_behind_a_path(path: Seq<char>, target: Seq<char>)
    ensures
        is_named(path + target, target),
{
    assert((path + target).skip(path.len() as int) =~= target);
}

/// The names that the system gives a port without a map are always looked for.
pub proof fn law_dos_names_are_looked_for(port: Seq<char>, map: Seq<MapEntry>)
    ensures
        port_names(port, map).contains("\\??\\"@ + port),
        port_names(port, map).contains("\\\\.\\"@ + port),
        port_names(port, map).contains("\\\\?\\"@ + port),
{
    let names = port_names(port, map);
    assert(names[0] == "\\??\\"@ + port);
    assert(names[1] == "\\\\.\\"@ + port);
    assert(names[2] == "\\\\?\\"@ + port);
}

/// One row of the handle table of the system.
#[derive(Clone, Copy, Debug, PartialEq, Eq, Structural)]
pub struct TableEntry {
    pub pid: u32,
    pub handle: u64,
    pub access: u32,
    pub object_type: u16,
}

/// The rights to read and to write data, either of which a handle that is open
/// for I/O carries.
pub const IO_RIGHTS: u32 = 3;

/// The object type of the first row with a handle of a process.
pub open spec fn type_of(table: Seq<TableEntry>, pid: u32, handle: u64) -> Option<u16>
    decreases table.len(),
{
    if table.len() == 0 {
        None
    } else if table[0].pid == pid && table[0].handle == handle {
        Some(table[0].object_type)
    } else {
        type_of(table.skip(1), pid, handle)
    }
}

/// Whether a row is a file that is open for I/O.
pub open spec fn is_open_file(entry: TableEntry, file_type: u16) -> bool {
    entry.pid != 0 && entry.object_type == file_type && entry.access & IO_RIGHTS != 0
}

/// The rows that are files open for I/O.
pub open spec fn open_files(table: Seq<TableEntry>, file_type: u16) -> Seq<TableEntry> {
    table.filter(|e: TableEntry| is_open_file(e, file_type))
}

/// The handles that can be a port: the files that are open for I/O. The number
/// by which the system knows files differs, so it is learned from `mine`, a
/// handle of a file that the process `me` has opened itself.
pub fn handles_for_io(table: &Vec<TableEntry>, me: u32, mine: u64) -> (out: Result<
    Vec<TableEntry>,
    String,
>)
    ensures
        match type_of(table@, me, mine) {
            Some(file_type) => out matches Ok(list) && list@ == open_files(table@, file_type),
            None => out matches Err(e) && e@ == "无法确定文件对象的类型编号"@,
        },
{
    let n: usize = table.len();
    let mut i: usize = 0;
    let mut learned: Option<u16> = None;
    assert(table@.skip(0) =~= table@);
    while i < n && learned.is_none()
        invariant
            i <= n,
            n == table@.len(),
            match learned {
                Some(t) => type_of(table@, me, mine) == Some(t),
                None => type_of(table@, me, mine) == type_of(table@.skip(i as int), me, mine),
            },
        decreases n - i,
    {
        let entry: TableEntry = table[i];
        proof {
            assert(table@.skip(i as int)[0] == entry);
            assert(table@.skip(i as int).skip(1) =~= table@.skip(i + 1));
        }
        if entry.pid == me && entry.handle == mine {
            learned = Some(entry.object_type);
        }
        i += 1;
    }
    let file_type: u16 = match learned {
        Some(t) => t,
        None => {
            assert(table@.skip(i as int) =~= Seq::empty());
            return Err(text_copy("无法确定文件对象的类型编号"));
        },
    };
    let mut out: Vec<TableEntry> = Vec::new();
    let mut k: usize = 0;
    let ghost p = |e: TableEntry| is_open_file(e, file_type);
    proof {
        reveal(Seq::filter);
        assert(table@.take(0) =~= Seq::empty());
    }
    while k < n
        invariant
            k <= n,
            n == table@.len(),
            p == (|e: TableEntry| is_open_file(e, file_type)),
            out@ == table@.take(k as int).filter(p),
        decreases n - k,
    {
        reveal(Seq::filter);
        let entry: TableEntry = table[k];
        proof {
            assert(table@.take(k + 1).drop_last() =~= table@.take(k as int));
            assert(table@.take(k + 1).last() == entry);
        }
        if entry.pid != 0 && entry.object_type == file_type && entry.access & IO_RIGHTS != 0 {
            out.push(entry);
        }
        k += 1;
    }
    assert(table@.take(n as int) =~= table@);
    Ok(out)
}

/// The answer of the system that the room for the table is too small.
pub const TOO_SMALL: i32 = -1073741820;

/// The room that is first made for the table, in bytes.
pub const FIRST_ROOM: usize = 1048576;

/// The most room that is made for the table, in bytes.
pub const MOST_ROOM: usize = 1073741824;

/// What to do after the system was asked for its table.
#[derive(Debug, PartialEq, Eq)]
pub enum TableStep {
    /// Ask again, with that much room.
    Grow { room: usize },
    /// Give up, for this reason.
    Fail { reason: String },
    /// The table is there.
    Read,
}

/// A number as eight upper-case hexadecimal digits.
pub open spec fn hex8(n: u32) -> Seq<char> {
    seq![
        hex_digit(n as int / 0x1000_0000 % 16),
        hex_digit(n as int / 0x100_0000 % 16),
        hex_digit(n as int / 0x10_0000 % 16),
        hex_digit(n as int / 0x1_0000 % 16),
        hex_digit(n as int / 0x1000 % 16),
        hex_digit(n as int / 0x100 % 16),
        hex_digit(n as int / 0x10 % 16),
        hex_digit(n as int % 16),
    ]
}

fn push_hex8(out: &mut String, n: u32)
    ensures
        final(out)@ == old(out)@ + hex8(n),
{
    out.push(hex_char((n / 0x1000_0000 % 16) as u8));
    out.push(hex_char((n / 0x100_0000 % 16) as u8));
    out.push(hex_char((n / 0x10_0000 % 16) as u8));
    out.push(hex_char((n / 0x1_0000 % 16) as u8));
    out.push(hex_char((n / 0x1000 % 16) as u8));
    out.push(hex_char((n / 0x100 % 16) as u8));
    out.push(hex_char((n / 0x10 % 16) as u8));
    out.push(hex_char((n % 16) as u8));
    assert(out@ =~= old(out)@ + hex8(n));
}

/// What to do after the system was asked for its table, by its answer. The room
/// doubles at least, and within a limit.
pub fn read_table(status: i32, room: usize, needed: u32) -> (out: TableStep)
    requires
        room <= MOST_ROOM,
    ensures
        status == TOO_SMALL ==> ({
            let next = if needed > 2 * room {
                needed as int
            } else {
                2 * room
            };
            if next > MOST_ROOM {
                out matches TableStep::Fail { reason } && reason@
                    == "系统句柄表异常地大，已放弃查找"@
            } else {
                out == (TableStep::Grow { room: next as usize })
            }
        }),
        status != TOO_SMALL && status < 0 ==> (out matches TableStep::Fail { reason } && reason@
            == "读取系统句柄表失败（0x"@ + hex8(status as u32) + "）"@),
        status >= 0 ==> out == TableStep::Read,
{
    if status == TOO_SMALL {
        let double: usize = room * 2;
        let next: usize = if needed as usize > double {
            needed as usize
        } else {
            double
        };
        if next > MOST_ROOM {
            return TableStep::Fail {
                reason: text_copy("系统句柄表异常地大，已放弃查找"),
            };
        }
        return TableStep::Grow { room: next };
    }
    if status < 0 {
        let mut reason = text_copy("读取系统句柄表失败（0x");
        push_hex8(&mut reason, status as u32);
        reason.append("）");
        return TableStep::Fail { reason };
    }
    TableStep::Read
}

/// The name of a handle of a process, where it could be read.
#[derive(Debug, PartialEq, Eq)]
pub struct NamedHandle {
    pub pid: u32,
    pub name: Option<String>,
}

/// What could be learned of a process.
#[derive(Debug, PartialEq, Eq)]
pub struct Process {
    pub pid: u32,
    /// The path of its executable, where it could be read.
    pub path: Option<String>,
    /// The last part of that path, where it has one.
    pub name: Option<String>,
    /// The process that asks may end it.
    pub terminable: bool,
}

/// Whether a handle is one to the port.
pub open spec fn is_port(h: NamedHandle, targets: Seq<Seq<char>>) -> bool {
    h.name matches Some(name) && exists|i: int|
        0 <= i < targets.len() && is_named(name@, #[trigger] targets[i])
}

/// The processes with a handle to the port, each once, in the order in which
/// their handles were met.
pub open spec fn holders(list: Seq<NamedHandle>, targets: Seq<Seq<char>>) -> Seq<u32>
    decreases list.len(),
{
    if list.len() == 0 {
        Seq::empty()
    } else {
        let before = holders(list.drop_last(), targets);
        if is_port(list.last(), targets) && !before.contains(list.last().pid) {
            before.push(list.last().pid)
        } else {
            before
        }
    }
}

/// The processes with a handle whose name could not be read, each once.
pub open spec fn unreadable(list: Seq<NamedHandle>) -> Seq<u32>
    decreases list.len(),
{
    if list.len() == 0 {
        Seq::empty()
    } else {
        let before = unreadable(list.drop_last());
        if list.last().name is None && !before.contains(list.last().pid) {
            before.push(list.last().pid)
        } else {
            before
        }
    }
}

/// What is known of a process: the first entry that is about it.
pub open spec fn known(processes: Seq<Process>, pid: u32) -> Option<Process>
    decreases processes.len(),
{
    if processes.len() == 0 {
        None
    } else if processes[0].pid == pid {
        Some(processes[0])
    } else {
        known(processes.skip(1), pid)
    }
}

/// Whether it is known what a process is: its path could be read.
pub open spec fn is_identified(processes: Seq<Process>, pid: u32) -> bool {
    known(processes, pid) matches Some(p) && p.path is Some
}

/// A process as an owner of the port, as the process `me` sees it.
pub open spec fn owner_of(processes: Seq<Process>, pid: u32, me: u32) -> OwnerModel {
    let p = known(processes, pid);
    OwnerModel {
        pid,
        name: if p is Some && p->0.path is Some && p->0.name is Some {
            p->0.name->0@
        } else {
            "PID "@ + decimal(pid as nat)
        },
        path: match p {
            Some(p) => optional(p.path),
            None => None,
        },
        killable: pid != me && p is Some && p->0.terminable,
    }
}

/// Processes as owners of the port.
pub open spec fn owners_of(processes: Seq<Process>, pids: Seq<u32>, me: u32) -> Seq<OwnerModel> {
    pids.map_values(|pid: u32| owner_of(processes, pid, me))
}

/// How many of the processes are identified.
pub open spec fn identified(processes: Seq<Process>, pids: Seq<u32>) -> nat
    decreases pids.len(),
{
    if pids.len() == 0 {
        0
    } else {
        identified(processes, pids.drop_last()) + (if is_identified(processes, pids.last()) {
            1nat
        } else {
            0
        })
    }
}

fn find_process<'a>(processes: &'a Vec<Process>, pid: u32) -> (out: Option<&'a Process>)
    ensures
        match out {
            Some(p) => known(processes@, pid) == Some(*p),
            None => known(processes@, pid) is None,
        },
{
    let n: usize = processes.len();
    let mut i: usize = 0;
    assert(processes@.skip(0) =~= processes@);
    while i < n
        invariant
            i <= n,
            n == processes@.len(),
            known(processes@, pid) == known(processes@.skip(i as int), pid),
        decreases n - i,
    {
        proof {
            assert(processes@.skip(i as int)[0] == processes@[i as int]);
            assert(processes@.skip(i as int).skip(1) =~= processes@.skip(i + 1));
        }
        if processes[i].pid == pid {
            return Some(&processes[i]);
        }
        i += 1;
    }
    assert(processes@.skip(n as int) =~= Seq::empty());
    None
}

fn owner(processes: &Vec<Process>, pid: u32, me: u32) -> (out: Owner)
    ensures
        out@ == owner_of(processes@, pid, me),
{
    let found: Option<&Process> = find_process(processes, pid);
    let mut name = text_copy("PID ");
    push_decimal(&mut name, pid as u64);
    let mut path: Option<String> = None;
    let mut killable = false;
    match found {
        Some(p) => {
            match &p.path {
                Some(t) => {
                    path = Some(text_copy(t.as_str()));
                    match &p.name {
                        Some(n) => {
                            name = text_copy(n.as_str());
                        },
                        None => {},
                    }
                },
                None => {},
            }
            killable = pid != me && p.terminable;
        },
        None => {},
    }
    let out = Owner { pid, name, path, killable };
    assert(out@ =~= owner_of(processes@, pid, me));
    out
}

fn has_pid(list: &Vec<u32>, pid: u32) -> (yes: bool)
    ensures
        yes == list@.contains(pid),
{
    let n: usize = list.len();
    let mut i: usize = 0;
    while i < n
        invariant
            i <= n,
            n == list@.len(),
            forall|k: int| 0 <= k < i ==> #[trigger] list@[k] != pid,
        decreases n - i,
    {
        if list[i] == pid {
            assert(list@[i as int] == pid);
            return true;
        }
        i += 1;
    }
    false
}

fn matches_any(name: &str, targets: &Vec<String>) -> (yes: bool)
    ensures
        yes == exists|i: int|
            0 <= i < contents(targets@).len() && is_named(name@, #[trigger] contents(targets@)[i]),
{
    let n: usize = targets.len();
    let mut i: usize = 0;
    while i < n
        invariant
            i <= n,
            n == targets@.len(),
            forall|k: int| 0 <= k < i ==> !is_named(name@, #[trigger] contents(targets@)[k]),
        decreases n - i,
    {
        assert(contents(targets@)[i as int] == targets@[i as int]@);
        if name_matches(name, targets[i].as_str()) {
            return true;
        }
        i += 1;
    }
    false
}

/// What a scan of a port finds. The names are those of the handles that can be
/// a port, or the reason why they could not be listed.
pub fn scan(
    port: &str,
    map: &Vec<MapEntry>,
    names: Result<Vec<NamedHandle>, String>,
    processes: &Vec<Process>,
    me: u32,
) -> (out: Result<Report, String>)
    ensures
        scanned(out) == (match names {
            Err(e) => Err(e@),
            Ok(list) => Ok(
                ReportModel {
                    port: Seq::empty(),
                    owners: owners_of(
                        processes@,
                        holders(list@, port_names(port@, map@)),
                        me,
                    ),
                    hidden: identified(processes@, unreadable(list@)),
                },
            ),
        }),
{
    let targets: Vec<String> = device_names(port, map);
    let list: Vec<NamedHandle> = match names {
        Err(e) => {
            return Err(e);
        },
        Ok(list) => list,
    };
    let mut pids: Vec<u32> = Vec::new();
    let mut blind: Vec<u32> = Vec::new();
    let n: usize = list.len();
    let mut i: usize = 0;
    assert(list@.take(0) =~= Seq::empty());
    while i < n
        invariant
            i <= n,
            n == list@.len(),
            pids@ == holders(list@.take(i as int), contents(targets@)),
            blind@ == unreadable(list@.take(i as int)),
            blind@.len() <= i,
        decreases n - i,
    {
        let h: &NamedHandle = &list[i];
        proof {
            assert(list@.take(i + 1).drop_last() =~= list@.take(i as int));
            assert(list@.take(i + 1).last() == list@[i as int]);
        }
        match &h.name {
            Some(name) => {
                if matches_any(name.as_str(), &targets) && !has_pid(&pids, h.pid) {
                    pids.push(h.pid);
                }
            },
            None => {
                if !has_pid(&blind, h.pid) {
                    blind.push(h.pid);
                }
            },
        }
        i += 1;
    }
    assert(list@.take(n as int) =~= list@);
    let mut owners: Vec<Owner> = Vec::new();
    let m: usize = pids.len();
    let mut k: usize = 0;
    while k < m
        invariant
            k <= m,
            m == pids@.len(),
            owners@.len() == k,
            forall|j: int|
                0 <= j < k ==> (#[trigger] owners@[j])@ == owner_of(processes@, pids@[j], me),
        decreases m - k,
    {
        owners.push(owner(processes, pids[k], me));
        k += 1;
    }
    let b: usize = blind.len();
    let mut hidden: usize = 0;
    let mut q: usize = 0;
    assert(blind@.take(0) =~= Seq::empty());
    while q < b
        invariant
            q <= b,
            b == blind@.len(),
            hidden <= q,
            hidden == identified(processes@, blind@.take(q as int)),
        decreases b - q,
    {
        proof {
            assert(blind@.take(q + 1).drop_last() =~= blind@.take(q as int));
            assert(blind@.take(q + 1).last() == blind@[q as int]);
        }
        match find_process(processes, blind[q]) {
            Some(p) => {
                if p.path.is_some() {
                    hidden += 1;
                }
            },
            None => {},
        }
        q += 1;
    }
    assert(blind@.take(b as int) =~= blind@);
    let report = Report { port: String::new(), owners, hidden };
    proof {
        assert(report@.port =~= Seq::empty());
        assert(report@.owners =~= owners_of(processes@, pids@, me));
    }
    Ok(report)
}

/// A process is listed once, however many handles to the port it has.
pub proof fn law_owners_are_listed_once(list: Seq<NamedHandle>, targets: Seq<Seq<char>>)
    ensures
        holders(list, targets).no_duplicates(),
    decreases list.len(),
{
    if list.len() > 0 {
        law_owners_are_listed_once(list.drop_last(), targets);
    }
}

/// Exactly the processes with a handle to the port are listed.
pub proof fn law_owners_hold_the_port(list: Seq<NamedHandle>, targets: Seq<Seq<char>>, pid: u32)
    ensures
        holders(list, targets).contains(pid) <==> exists|i: int|
            0 <= i < list.len() && is_port(#[trigger] list[i], targets) && list[i].pid == pid,
    decreases list.len(),
{
    if list.len() > 0 {
        let short = list.drop_last();
        let before = holders(short, targets);
        let now = holders(list, targets);
        let last = list.len() - 1;
        law_owners_hold_the_port(short, targets, pid);
        if now.contains(pid) {
            if before.contains(pid) {
                let i = choose|i: int|
                    0 <= i < short.len() && is_port(#[trigger] short[i], targets) && short[i].pid
                        == pid;
                assert(is_port(list[i], targets));
            } else {
                let k = choose|k: int| 0 <= k < now.len() && now[k] == pid;
                assert(k == before.len());
                assert(is_port(list[last], targets));
            }
        }
        if exists|i: int|
            0 <= i < list.len() && is_port(#[trigger] list[i], targets) && list[i].pid == pid {
            let i = choose|i: int|
                0 <= i < list.len() && is_port(#[trigger] list[i], targets) && list[i].pid == pid;
            if i < last {
                assert(is_port(short[i], targets));
                let k = choose|k: int| 0 <= k < before.len() && before[k] == pid;
                assert(now[k] == pid);
            } else if before.contains(pid) {
                let k = choose|k: int| 0 <= k < before.len() && before[k] == pid;
                assert(now[k] == pid);
            } else {
                assert(now.last() == pid);
            }
        }
    }
}

/// How long a process that was asked to stop is waited for, in milliseconds.
pub const ASK_MS: u64 = 1500;

/// What to do next to a process that is to end. It must be opened for that, and
/// asking it means to close its windows: a program with unsaved work gets the
/// chance to ask.
pub open spec fn kill_step(pid: u32, me: u32, event: KillEvent) -> KillStep {
    match event {
        KillEvent::Begin => if pid == me {
            KillStep::Done { outcome: Err("那是本程序自己，不能结束"@) }
        } else {
            KillStep::Open
        },
        KillEvent::Opened { ok } => if ok {
            KillStep::Ask { wait_ms: ASK_MS }
        } else {
            KillStep::Done {
                outcome: Err("没有权限结束该进程，请以管理员身份重新运行本程序"@),
            }
        },
        KillEvent::Asked { windows, gone } => if gone {
            KillStep::Done {
                outcome: Ok(
                    "已关闭 "@ + decimal(windows as nat) + " 个窗口，进程已退出"@,
                ),
            }
        } else {
            KillStep::Force { wait_ms: 0 }
        },
        KillEvent::Forced { windows, gone } => if gone {
            KillStep::Done {
                outcome: Ok(
                    "已发送关闭请求，随后强制结束了进程（"@ + decimal(
                        windows as nat,
                    ) + " 个窗口）"@,
                ),
            }
        } else {
            KillStep::Done {
                outcome: Err("结束进程失败，请以管理员身份重新运行本程序"@),
            }
        },
    }
}

fn counted(before: &str, windows: u32, after: &str) -> (out: String)
    ensures
        out@ == before@ + decimal(windows as nat) + after@,
{
    let mut out = text_copy(before);
    push_decimal(&mut out, windows as u64);
    out.append(after);
    out
}

/// What to do next to a process that is to end.
pub fn kill(pid: u32, me: u32, event: KillEvent) -> (out: KillAction)
    ensures
        out@ == kill_step(pid, me, event),
{
    match event {
        KillEvent::Begin => if pid == me {
            KillAction::Done { outcome: Err(text_copy("那是本程序自己，不能结束")) }
        } else {
            KillAction::Open
        },
        KillEvent::Opened { ok } => if ok {
            KillAction::Ask { wait_ms: ASK_MS }
        } else {
            KillAction::Done {
                outcome: Err(
                    text_copy("没有权限结束该进程，请以管理员身份重新运行本程序"),
                ),
            }
        },
        KillEvent::Asked { windows, gone } => if gone {
            KillAction::Done {
                outcome: Ok(counted("已关闭 ", windows, " 个窗口，进程已退出")),
            }
        } else {
            KillAction::Force { wait_ms: 0 }
        },
        KillEvent::Forced { windows, gone } => if gone {
            KillAction::Done {
                outcome: Ok(
                    counted(
                        "已发送关闭请求，随后强制结束了进程（",
                        windows,
                        " 个窗口）",
                    ),
                ),
            }
        } else {
            KillAction::Done {
                outcome: Err(
                    text_copy("结束进程失败，请以管理员身份重新运行本程序"),
                ),
            }
        },
    }
}

/// The UTF-16 units of a text in memory, the lower byte first. A byte that is
/// left over counts for nothing.
pub open spec fn units_of(bytes: Seq<u8>) -> Seq<u16> {
    Seq::new((bytes.len() / 2) as nat, |i: int| (bytes[2 * i] + 256 * bytes[2 * i + 1]) as u16)
}

/// The units before the first that is zero.
pub open spec fn before_nul(units: Seq<u16>) -> Seq<u16>
    decreases units.len(),
{
    if units.len() == 0 || units[0] == 0 {
        Seq::empty()
    } else {
        seq![units[0]] + before_nul(units.skip(1))
    }
}

/// The text in memory that ends with a zero, or with the memory.
pub open spec fn wide_text(bytes: Seq<u8>) -> Seq<char> {
    utf16(before_nul(units_of(bytes)))
}

proof fn lemma_before_nul(units: Seq<u16>, k: int)
    requires
        0 <= k <= units.len(),
        forall|j: int| 0 <= j < k ==> #[trigger] units[j] != 0,
        k < units.len() ==> units[k] == 0,
    ensures
        before_nul(units) == units.take(k),
    decreases units.len(),
{
    if units.len() == 0 || units[0] == 0 {
        assert(k == 0);
        assert(units.take(0) =~= Seq::empty());
    } else {
        assert(k > 0);
        lemma_before_nul(units.skip(1), k - 1);
        assert(seq![units[0]] + units.skip(1).take(k - 1) =~= units.take(k));
    }
}

/// The text in memory that ends with a zero, or with the memory.
pub fn wide_string(bytes: &[u8]) -> (out: String)
    ensures
        out@ == wide_text(bytes@),
{
    let n: usize = bytes.len();
    let mut units: Vec<u16> = Vec::new();
    let mut i: usize = 0;
    while n - i > 1
        invariant
            n == bytes@.len(),
            i <= n,
            i == 2 * units@.len(),
            forall|k: int|
                0 <= k < units@.len() ==> #[trigger] units@[k] == (bytes@[2 * k] + 256 * bytes@[2
                    * k + 1]) as u16,
        decreases n - i,
    {
        let low: u16 = bytes[i] as u16;
        let high: u16 = bytes[i + 1] as u16;
        units.push(low + 256 * high);
        i += 2;
    }
    assert(units@ =~= units_of(bytes@));
    let m: usize = units.len();
    let mut k: usize = 0;
    while k < m && units[k] != 0
        invariant
            k <= m,
            m == units@.len(),
            forall|j: int| 0 <= j < k ==> #[trigger] units@[j] != 0,
        decreases m - k,
    {
        k += 1;
    }
    proof {
        lemma_before_nul(units@, k as int);
    }
    let text = slice_subrange(units.as_slice(), 0, k);
    assert(text@ =~= units@.take(k as int));
    String::from_utf16_lossy(text)
}

/// What is known of a device: the name of its port and its friendly name, as
/// they stand in memory.
#[derive(Debug, PartialEq, Eq)]
pub struct Device {
    pub port_name: Option<Vec<u8>>,
    pub friendly_name: Option<Vec<u8>>,
}

/// Whether a device is the one under a port: its port name says so, or its
/// friendly name does in brackets.
pub open spec fn backs(d: Device, port: Seq<char>) -> bool {
    ||| d.port_name matches Some(bytes) && same_letters(wide_text(bytes@), port)
    ||| d.friendly_name matches Some(bytes) && holds_run(
        lowered(wide_text(bytes@)),
        seq!['('] + lowered(port) + seq![')'],
    )
}

/// Whether a device is the one under a port.
pub fn is_port_device(d: &Device, port: &str) -> (yes: bool)
    ensures
        yes == backs(*d, port@),
{
    let p: Vec<char> = chars_of(port);
    match &d.port_name {
        Some(bytes) => {
            let name: String = wide_string(bytes.as_slice());
            if same_ignoring_case(chars_of(name.as_str()).as_slice(), p.as_slice()) {
                return true;
            }
        },
        None => {},
    }
    match &d.friendly_name {
        Some(bytes) => {
            let name: String = wide_string(bytes.as_slice());
            let text: Vec<char> = lower_chars(chars_of(name.as_str()).as_slice());
            let mut run: Vec<char> = Vec::new();
            run.push('(');
            let mut inner: Vec<char> = lower_chars(p.as_slice());
            run.append(&mut inner);
            run.push(')');
            assert(run@ =~= seq!['('] + lowered(port@) + seq![')']);
            has_run(text.as_slice(), run.as_slice())
        },
        None => false,
    }
}

/// Which of the devices to restart, so that a port becomes free: the first that
/// is under it. Nothing is given where the devices could not be listed.
pub fn release(port: &str, devices: &Option<Vec<Device>>) -> (out: Result<usize, String>)
    ensures
        match (devices, out) {
            (None, Err(e)) => e@ == "无法枚举设备（需要管理员权限）"@,
            (None, Ok(_)) => false,
            (Some(list), Ok(i)) => i < list@.len() && backs(list@[i as int], port@) && forall|k: int|
                0 <= k < i ==> !backs(#[trigger] list@[k], port@),
            (Some(list), Err(e)) => e@ == "没有找到 "@ + port@ + " 对应的设备"@ && forall|k: int|
                0 <= k < list@.len() ==> !backs(#[trigger] list@[k], port@),
        },
{
    let list: &Vec<Device> = match devices {
        None => {
            return Err(text_copy("无法枚举设备（需要管理员权限）"));
        },
        Some(list) => list,
    };
    let n: usize = list.len();
    let mut i: usize = 0;
    while i < n
        invariant
            i <= n,
            n == list@.len(),
            devices matches Some(l) && l == list,
            forall|k: int| 0 <= k < i ==> !backs(#[trigger] list@[k], port@),
        decreases n - i,
    {
        if is_port_device(&list[i], port) {
            return Ok(i);
        }
        i += 1;
    }
    let mut text = prefixed("没有找到 ", port);
    text.append(" 对应的设备");
    Err(text)
}

/// What came of restarting the device under a port.
pub fn restarted(port: &str, ok: bool) -> (out: Result<String, String>)
    ensures
        said(out) == (if ok {
            Ok("已重启 "@ + port@ + " 对应的设备，现在可以重新连接"@)
        } else {
            Err("重启设备失败，请以管理员身份重新运行本程序"@)
        }),
{
    if ok {
        let mut text = prefixed("已重启 ", port);
        text.append(" 对应的设备，现在可以重新连接");
        Ok(text)
    } else {
        Err(text_copy("重启设备失败，请以管理员身份重新运行本程序"))
    }
}

/// The names of a port come in their order: the three of DOS, and for every device that the
/// system maps to the port, in any case of letters and without the spaces round it, its
/// own name and the one below the root of all names.
pub proof fn law_the_names_of_a_port(port: Seq<char>, map: Seq<MapEntry>, entry: MapEntry)
    ensures
        port_names(port, Seq::empty()) == seq![
            seq!['\\', '?', '?', '\\'] + port,
            seq!['\\', '\\', '.', '\\'] + port,
            seq!['\\', '\\', '?', '\\'] + port,
        ],
        same_letters(trimmed(entry.port@), port) ==> port_names(port, map.push(entry))
            == port_names(port, map).push(entry.device@).push("\\??\\GLOBALROOT"@ + entry.device@),
        !same_letters(trimmed(entry.port@), port) ==> port_names(port, map.push(entry))
            == port_names(port, map),
{
    reveal_strlit("\\??\\");
    reveal_strlit("\\\\.\\");
    reveal_strlit("\\\\?\\");
    assert("\\??\\"@ =~= seq!['\\', '?', '?', '\\']);
    assert("\\\\.\\"@ =~= seq!['\\', '\\', '.', '\\']);
    assert("\\\\?\\"@ =~= seq!['\\', '\\', '?', '\\']);
    assert(port_names(port, Seq::empty()) =~= seq![
        seq!['\\', '?', '?', '\\'] + port,
        seq!['\\', '\\', '.', '\\'] + port,
        seq!['\\', '\\', '?', '\\'] + port,
    ]);
    assert(map.push(entry).drop_last() =~= map);
    if same_letters(trimmed(entry.port@), port) {
        assert(port_names(port, map.push(entry)) =~= port_names(port, map).push(entry.device@).push(
            "\\??\\GLOBALROOT"@ + entry.device@,
        ));
    }
}

/// A name is that of a target exactly where it ends with the same letters.
pub proof fn law_names_are_told_by_their_end(path: Seq<char>, end: Seq<char>, target: Seq<char>)
    requires
        end.len() == target.len(),
    ensures
        is_named(path + end, target) <==> same_letters(end, target),
        target.len() > 0 ==> !is_named(target.skip(1), target),
{
    assert((path + end).skip(path.len() as int) =~= end);
}

/// The type of a handle is that of the first entry for it.
pub proof fn law_the_first_entry_gives_the_type(table: Seq<TableEntry>, pid: u32, handle: u64)
    ensures
        match type_of(table, pid, handle) {
            Some(t) => exists|i: int|
                0 <= i < table.len() && (#[trigger] table[i]).pid == pid && table[i].handle
                    == handle && table[i].object_type == t && forall|j: int|
                    0 <= j < i ==> (#[trigger] table[j]).pid != pid || table[j].handle != handle,
            None => forall|i: int|
                0 <= i < table.len() ==> (#[trigger] table[i]).pid != pid || table[i].handle
                    != handle,
        },
    decreases table.len(),
{
    if table.len() > 0 {
        let rest = table.skip(1);
        if table[0].pid == pid && table[0].handle == handle {
            assert(table[0].pid == pid);
        } else {
            law_the_first_entry_gives_the_type(rest, pid, handle);
            match type_of(rest, pid, handle) {
                Some(t) => {
                    let i = choose|i: int|
                        0 <= i < rest.len() && (#[trigger] rest[i]).pid == pid && rest[i].handle
                            == handle && rest[i].object_type == t && forall|j: int|
                            0 <= j < i ==> (#[trigger] rest[j]).pid != pid || rest[j].handle
                                != handle;
                    assert(table[i + 1] == rest[i]);
                    assert forall|j: int| 0 <= j < i + 1 implies (#[trigger] table[j]).pid != pid
                        || table[j].handle != handle by {
                        if j > 0 {
                            assert(table[j] == rest[j - 1]);
                        }
                    }
                },
                None => {
                    assert forall|j: int| 0 <= j < table.len() implies (#[trigger] table[j]).pid
                        != pid || table[j].handle != handle by {
                        if j > 0 {
                            assert(table[j] == rest[j - 1]);
                        }
                    }
                },
            }
        }
    }
}

/// A handle is looked at where it belongs to a process, is one of a file, and lets that
/// process read or write.
pub proof fn law_which_handles_are_looked_at(table: Seq<TableEntry>, e: TableEntry, file_type: u16)
    ensures
        open_files(table, file_type).contains(e) <==> table.contains(e) && e.pid != 0
            && e.object_type == file_type && e.access & 3u32 != 0,
{
    let p = |e: TableEntry| is_open_file(e, file_type);
    let kept = table.filter(p);
    broadcast use vstd::seq_lib::group_filter_ensures;

    if kept.contains(e) {
        table.lemma_filter_contains_rev(p, e);
        let k = choose|k: int| 0 <= k < kept.len() && kept[k] == e;
        assert(p(kept[k]));
    }
    if table.contains(e) && p(e) {
        let k = choose|k: int| 0 <= k < table.len() && table[k] == e;
        assert(p(table[k]));
        assert(kept.contains(table[k]));
    }
}

/// The processes with a handle that cannot be read are those, each of them once.
pub proof fn law_whose_handles_are_unreadable(list: Seq<NamedHandle>, h: NamedHandle)
    ensures
        unreadable(Seq::empty()).len() == 0,
        unreadable(list).no_duplicates(),
        h.name is Some ==> unreadable(list.push(h)) == unreadable(list),
        h.name is None && unreadable(list).contains(h.pid) ==> unreadable(list.push(h))
            == unreadable(list),
        h.name is None && !unreadable(list).contains(h.pid) ==> unreadable(list.push(h))
            == unreadable(list).push(h.pid),
    decreases list.len(),
{
    if list.len() > 0 {
        law_whose_handles_are_unreadable(list.drop_last(), list.last());
    }
    assert(list.push(h).drop_last() =~= list);
}

/// A handle leads to the port where its name could be read and ends with a name of the
/// port.
pub proof fn law_which_handles_lead_to_the_port(h: NamedHandle, targets: Seq<Seq<char>>, i: int)
    ensures
        h.name is None ==> !is_port(h, targets),
        h.name matches Some(name) ==> (0 <= i < targets.len() && is_named(name@, targets[i])
            ==> is_port(h, targets)),
        h.name matches Some(name) ==> ((forall|k: int|
            0 <= k < targets.len() ==> !is_named(name@, #[trigger] targets[k])) ==> !is_port(
            h,
            targets,
        )),
{
}

/// A process is known by the first entry with its number.
pub proof fn law_the_first_entry_is_the_process(processes: Seq<Process>, p: Process, pid: u32)
    ensures
        known(Seq::empty(), pid) is None,
        known(seq![p] + processes, p.pid) == Some(p),
        pid != p.pid ==> known(seq![p] + processes, pid) == known(processes, pid),
{
    let all = seq![p] + processes;
    assert(all[0] == p);
    assert(all.skip(1) =~= processes);
}

/// What is listed of an owner: its number, its name where its program is known, its
/// program, and that it may be ended where it is not this program and the system allows
/// it. One that nothing is known of is called by its number and may not be ended.
pub proof fn law_what_is_listed_of_an_owner(processes: Seq<Process>, pid: u32, me: u32)
    ensures
        owner_of(processes, pid, me).pid == pid,
        known(processes, pid) is None ==> owner_of(processes, pid, me) == (OwnerModel {
            pid,
            name: seq!['P', 'I', 'D', ' '] + decimal(pid as nat),
            path: None,
            killable: false,
        }),
        known(processes, pid) matches Some(p) ==> {
            let o = owner_of(processes, pid, me);
            &&& o.killable == (p.terminable && pid != me)
            &&& p.path matches Some(path) ==> o.path == Some(path@)
            &&& p.path is None ==> o.path is None
            &&& p.path is Some ==> (p.name matches Some(name) ==> o.name == name@)
            &&& p.path is None || p.name is None ==> o.name == seq!['P', 'I', 'D', ' '] + decimal(
                pid as nat,
            )
        },
{
    reveal_strlit("PID ");
    assert("PID "@ =~= seq!['P', 'I', 'D', ' ']);
}

/// The owners are listed in the order of their numbers, and those are counted whose program
/// is known.
pub proof fn law_owners_are_listed_and_counted(
    processes: Seq<Process>,
    pids: Seq<u32>,
    pid: u32,
    me: u32,
)
    ensures
        owners_of(processes, pids.push(pid), me) == owners_of(processes, pids, me).push(
            owner_of(processes, pid, me),
        ),
        identified(processes, Seq::empty()) == 0,
        identified(processes, pids.push(pid)) == identified(processes, pids) + (if known(
            processes,
            pid,
        ) matches Some(p) && p.path is Some {
            1int
        } else {
            0
        }),
{
    assert(owners_of(processes, pids.push(pid), me) =~= owners_of(processes, pids, me).push(
        owner_of(processes, pid, me),
    ));
    assert(pids.push(pid).drop_last() =~= pids);
}

/// How a process is ended on Windows: not where it is this program, else it is opened, its
/// windows are asked to close within a second and a half, and it is forced to end at
/// once where it has not.
pub proof fn law_how_a_process_is_ended(pid: u32, me: u32, windows: u32)
    ensures
        pid == me ==> kill_step(pid, me, KillEvent::Begin) == (KillStep::Done {
            outcome: Err("那是本程序自己，不能结束"@),
        }),
        pid != me ==> kill_step(pid, me, KillEvent::Begin) is Open,
        kill_step(pid, me, KillEvent::Opened { ok: true }) == (KillStep::Ask { wait_ms: 1500 }),
        kill_step(pid, me, KillEvent::Opened { ok: false }) == (KillStep::Done {
            outcome: Err("没有权限结束该进程，请以管理员身份重新运行本程序"@),
        }),
        kill_step(pid, me, KillEvent::Asked { windows, gone: true }) == (KillStep::Done {
            outcome: Ok("已关闭 "@ + decimal(windows as nat) + " 个窗口，进程已退出"@),
        }),
        kill_step(pid, me, KillEvent::Asked { windows, gone: false }) == (KillStep::Force {
            wait_ms: 0,
        }),
        kill_step(pid, me, KillEvent::Forced { windows, gone: true }) == (KillStep::Done {
            outcome: Ok(
                "已发送关闭请求，随后强制结束了进程（"@ + decimal(windows as nat) + " 个窗口）"@,
            ),
        }),
        kill_step(pid, me, KillEvent::Forced { windows, gone: false }) == (KillStep::Done {
            outcome: Err("结束进程失败，请以管理员身份重新运行本程序"@),
        }),
{
}

/// Units are read from pairs of bytes, the low one first, and an odd byte at the end is
/// left out.
pub proof fn law_units_are_pairs_of_bytes(bytes: Seq<u8>, low: u8, high: u8)
    requires
        bytes.len() % 2 == 0,
    ensures
        units_of(Seq::empty()).len() == 0,
        units_of(bytes.push(low)) == units_of(bytes),
        units_of(bytes.push(low).push(high)) == units_of(bytes).push((low + 256 * high) as u16),
{
    let n = bytes.len() / 2;
    assert(bytes.push(low).len() / 2 == n);
    assert(bytes.push(low).push(high).len() / 2 == n + 1);
    assert(units_of(bytes.push(low)) =~= units_of(bytes));
    assert(units_of(bytes.push(low).push(high)) =~= units_of(bytes).push(
        (low + 256 * high) as u16,
    ));
}

/// A text ends before its first zero, and without one it is the whole.
pub proof fn law_a_zero_ends_the_text(a: Seq<u16>, b: Seq<u16>)
    requires
        !a.contains(0),
    ensures
        before_nul(a) == a,
        before_nul(a + seq![0u16] + b) == a,
    decreases a.len(),
{
    let all = a + seq![0u16] + b;
    if a.len() > 0 {
        let t = a.skip(1);
        assert(a.contains(a[0]));
        assert forall|i: int| 0 <= i < t.len() implies #[trigger] t[i] != 0 by {
            assert(a.contains(a[i + 1]));
        }
        law_a_zero_ends_the_text(t, b);
        assert(all.skip(1) =~= t + seq![0u16] + b);
        assert(all[0] == a[0]);
        assert(seq![a[0]] + t =~= a);
    } else {
        assert(all[0] == 0);
    }
}

/// A device stands behind a port where its port is called so, in any case of letters, or
/// where the name of the port stands in round brackets in what it is called.
pub proof fn law_which_device_backs_a_port(d: Device, port: Seq<char>)
    ensures
        d.port_name matches Some(bytes) && same_letters(
            utf16(before_nul(units_of(bytes@))),
            port,
        ) ==> backs(d, port),
        d.friendly_name matches Some(bytes) && holds_run(
            lowered(utf16(before_nul(units_of(bytes@)))),
            seq!['('] + lowered(port) + seq![')'],
        ) ==> backs(d, port),
        d.port_name is None && d.friendly_name is None ==> !backs(d, port),
        (d.port_name matches Some(bytes) ==> !same_letters(
            utf16(before_nul(units_of(bytes@))),
            port,
        )) && d.friendly_name is None ==> !backs(d, port),
{
}

/// The value of a digit to base sixteen.
pub open spec fn digit_value(c: char) -> int {
    if '0' <= c <= '9' {
        c as int - '0' as int
    } else {
        c as int - 'A' as int + 10
    }
}

/// Eight digits to base sixteen give the number back.
pub proof fn law_hexadecimal_numbers_read_back(n: u32)
    ensures
        ({
            let s = hex8(n);
            &&& s.len() == 8
            &&& forall|i: int|
                0 <= i < 8 ==> ('0' <= #[trigger] s[i] <= '9' || 'A' <= s[i] <= 'F')
            &&& n == digit_value(s[7]) + 16 * (digit_value(s[6]) + 16 * (digit_value(s[5]) + 16 * (
            digit_value(s[4]) + 16 * (digit_value(s[3]) + 16 * (digit_value(s[2]) + 16 * (
            digit_value(s[1]) + 16 * digit_value(s[0])))))))
        }),
{
    let m = n as int;
    assert(m / 0x100 == (m / 0x10) / 16);
    assert(m / 0x1000 == (m / 0x100) / 16);
    assert(m / 0x1_0000 == (m / 0x1000) / 16);
    assert(m / 0x10_0000 == (m / 0x1_0000) / 16);
    assert(m / 0x100_0000 == (m / 0x10_0000) / 16);
    assert(m / 0x1000_0000 == (m / 0x100_0000) / 16);
    assert(m / 0x1000_0000 < 16);
    let s = hex8(n);
    assert(digit_value(s[0]) == m / 0x1000_0000 % 16);
    assert(digit_value(s[1]) == m / 0x100_0000 % 16);
    assert(digit_value(s[2]) == m / 0x10_0000 % 16);
    assert(digit_value(s[3]) == m / 0x1_0000 % 16);
    assert(digit_value(s[4]) == m / 0x1000 % 16);
    assert(digit_value(s[5]) == m / 0x100 % 16);
    assert(digit_value(s[6]) == m / 0x10 % 16);
    assert(digit_value(s[7]) == m % 16);
}

/// The table of handles is read into a mebibyte first and never into more than a gibibyte,
/// and the status that asks for more room is 0xC0000004.
pub proof fn law_the_room_for_the_table()
    ensures
        FIRST_ROOM == 1024 * 1024,
        MOST_ROOM == 1024 * 1024 * 1024,
        TOO_SMALL == 0xc000_0004 - 0x1_0000_0000,
        IO_RIGHTS == 3,
        ASK_MS == 1500,
{
}

} // verus!
