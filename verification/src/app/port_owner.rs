//! The window that shows which program is holding a serial port, and offers the
//! ways out: to close the program, or to restart the device so that its handles
//! stop working.

use crate::app::helper::message;
use crate::config::profile::text_copy;
use crate::port_owner::linux::{release_step, ReleaseEvent, ReleaseStep};
use crate::port_owner::{
    kill_step, owner_models, said, KillEvent, KillStep, Owner, OwnerModel, Platform, Report,
    ReportModel,
};
use crate::session::{KindModel, SessionKind};
use crate::text::{chars_of, decimal, optional, push_decimal, same};
use vstd::prelude::*;
use vstd::slice::slice_subrange;

verus! {

/// How far a scan has come.
#[derive(Debug, PartialEq, Eq)]
pub enum Phase {
    Scanning,
    Listed { report: Report },
    Failed { error: String },
}

/// How far a scan has come, as a value.
#[verifier::ext_equal]
pub enum PhaseModel {
    Scanning,
    Listed { report: ReportModel },
    Failed { error: Seq<char> },
}

impl View for Phase {
    type V = PhaseModel;

    open spec fn view(&self) -> PhaseModel {
        match self {
            Phase::Scanning => PhaseModel::Scanning,
            Phase::Listed { report } => PhaseModel::Listed { report: report@ },
            Phase::Failed { error } => PhaseModel::Failed { error: error@ },
        }
    }
}

/// The window.
#[derive(Debug, PartialEq, Eq)]
pub struct PortOwnerWindow {
    pub port: String,
    /// It was opened by a connection that failed, so it can offer to connect
    /// again once the port is free.
    pub retry: bool,
    pub phase: Phase,
    /// What came of the last action.
    pub note: Option<String>,
    /// The last action worked.
    pub note_ok: bool,
    /// The processes that were to end and did not.
    pub failed: Vec<u32>,
}

/// The window as a value.
#[verifier::ext_equal]
pub struct PortOwnerWindowModel {
    pub port: Seq<char>,
    pub retry: bool,
    pub phase: PhaseModel,
    pub note: Option<Seq<char>>,
    pub note_ok: bool,
    pub failed: Seq<u32>,
}

impl View for PortOwnerWindow {
    type V = PortOwnerWindowModel;

    open spec fn view(&self) -> PortOwnerWindowModel {
        PortOwnerWindowModel {
            port: self.port@,
            retry: self.retry,
            phase: self.phase@,
            note: optional(self.note),
            note_ok: self.note_ok,
            failed: self.failed@,
        }
    }
}

/// An action that needs rights which the program does not have.
#[derive(Debug, PartialEq, Eq)]
pub enum Privileged {
    Kill { pid: u32 },
    Release { port: String },
}

/// Whether a text begins with another.
pub open spec fn begins(s: Seq<char>, start: Seq<char>) -> bool {
    s.len() >= start.len() && s.take(start.len() as int) == start
}

/// What came of an action that the helper was to run: whether it could be
/// started, and what it has written, where it wrote anything in time.
pub open spec fn answer(started: Result<(), String>, report: Option<String>) -> (Seq<char>, bool) {
    match (started, report) {
        (Err(e), _) => (e@, false),
        (Ok(_), Some(text)) => (text@, !begins(text@, "失败"@)),
        (Ok(_), None) => ("已授权，但没有收到执行结果"@, false),
    }
}

/// What came of an action that the helper was to run.
pub fn privileged_answer(started: Result<(), String>, report: Option<String>) -> (out: (
    String,
    bool,
))
    ensures
        (out.0@, out.1) == answer(started, report),
{
    match started {
        Err(e) => (e, false),
        Ok(_) => match report {
            Some(text) => {
                let chars: Vec<char> = chars_of(text.as_str());
                let start: Vec<char> = chars_of("失败");
                let n: usize = start.len();
                let mut failed = false;
                if chars.len() >= n {
                    let head = slice_subrange(chars.as_slice(), 0, n);
                    assert(head@ =~= chars@.take(n as int));
                    failed = same(head, start.as_slice());
                }
                (text, !failed)
            },
            None => (text_copy("已授权，但没有收到执行结果"), false),
        },
    }
}

/// What the helper writes of a failure is read as one.
pub proof fn law_failures_come_through(started: Result<(), String>, text: String, reason: Seq<char>)
    requires
        started is Ok,
        text@ == message(Err::<Seq<char>, Seq<char>>(reason)),
    ensures
        answer(started, Some(text)) == (text@, false),
{
    reveal_strlit("失败");
    reveal_strlit("失败：");
    assert(text@.take(2) =~= "失败"@);
}

/// What the helper writes of a process that has ended is not read as a failure.
pub proof fn law_successes_come_through(
    started: Result<(), String>,
    text: String,
    platform: Platform,
    pid: u32,
    me: u32,
    event: KillEvent,
)
    requires
        started is Ok,
        kill_step(platform, pid, me, event) matches KillStep::Done { outcome } && outcome is Ok
            && text@ == message(outcome),
    ensures
        answer(started, Some(text)) == (text@, true),
{
    reveal_strlit("失败");
    reveal_strlit("已发送 SIGTERM，进程已退出");
    reveal_strlit("进程忽略 SIGTERM，已用 SIGKILL 强制结束");
    reveal_strlit("已关闭 ");
    reveal_strlit("已发送关闭请求，随后强制结束了进程（");
    if begins(text@, "失败"@) {
        assert(text@.take(2)[0] == '失');
        assert(text@[0] == '失');
    }
}

/// What the helper writes of a device that was restarted is not read as a failure.
pub proof fn law_restarts_come_through(
    started: Result<(), String>,
    text: String,
    port: Seq<char>,
    event: ReleaseEvent,
)
    requires
        started is Ok,
        release_step(port, event) matches ReleaseStep::Done { outcome } && outcome is Ok && text@
            == message(outcome),
    ensures
        answer(started, Some(text)) == (text@, true),
{
    reveal_strlit("失败");
    reveal_strlit("已重启 ");
    if begins(text@, "失败"@) {
        assert(text@.take(2)[0] == '失');
        assert(text@[0] == '失');
    }
}

/// Whether a process is among the owners.
pub open spec fn is_owner(owners: Seq<OwnerModel>, pid: u32) -> bool {
    exists|i: int| 0 <= i < owners.len() && (#[trigger] owners[i]).pid == pid
}

/// Those of the processes that still hold the port, by what a new scan found.
/// Where it found nothing out, none is said to.
pub open spec fn still_holding(report: Option<ReportModel>, attempted: Seq<u32>) -> Seq<u32> {
    match report {
        Some(r) => attempted.filter(|pid: u32| is_owner(r.owners, pid)),
        None => Seq::empty(),
    }
}

/// A report that may be missing, as a value.
pub open spec fn report_model(report: Option<Report>) -> Option<ReportModel> {
    match report {
        Some(r) => Some(r@),
        None => None,
    }
}

fn owns(owners: &Vec<Owner>, pid: u32) -> (yes: bool)
    ensures
        yes == is_owner(owner_models(owners@), pid),
{
    let n: usize = owners.len();
    let mut i: usize = 0;
    while i < n
        invariant
            i <= n,
            n == owners@.len(),
            forall|k: int| 0 <= k < i ==> (#[trigger] owner_models(owners@)[k]).pid != pid,
        decreases n - i,
    {
        assert(owner_models(owners@)[i as int] == owners@[i as int]@);
        if owners[i].pid == pid {
            return true;
        }
        i += 1;
    }
    false
}

/// Those of the processes that still hold the port.
pub fn confirm(report: &Option<Report>, attempted: &Vec<u32>) -> (still: Vec<u32>)
    ensures
        still@ == still_holding(report_model(*report), attempted@),
{
    let mut still: Vec<u32> = Vec::new();
    match report {
        Some(r) => {
            let n: usize = attempted.len();
            let mut i: usize = 0;
            let ghost p = |pid: u32| is_owner(r@.owners, pid);
            proof {
                reveal(Seq::filter);
                assert(attempted@.take(0) =~= Seq::empty());
            }
            while i < n
                invariant
                    i <= n,
                    n == attempted@.len(),
                    p == (|pid: u32| is_owner(r@.owners, pid)),
                    still@ == attempted@.take(i as int).filter(p),
                decreases n - i,
            {
                reveal(Seq::filter);
                proof {
                    assert(attempted@.take(i + 1).drop_last() =~= attempted@.take(i as int));
                    assert(attempted@.take(i + 1).last() == attempted@[i as int]);
                }
                if owns(&r.owners, attempted[i]) {
                    still.push(attempted[i]);
                }
                i += 1;
            }
            assert(attempted@.take(n as int) =~= attempted@);
        },
        None => {},
    }
    still
}

/// Numbers with a mark between them.
pub open spec fn listed(pids: Seq<u32>) -> Seq<char>
    decreases pids.len(),
{
    if pids.len() == 0 {
        Seq::empty()
    } else if pids.len() == 1 {
        decimal(pids[0] as nat)
    } else {
        listed(pids.drop_last()) + "、"@ + decimal(pids.last() as nat)
    }
}

/// The text of an action's outcome, with the processes that still hold the port.
pub open spec fn noted(text: Seq<char>, still: Seq<u32>) -> Seq<char> {
    if still.len() == 0 {
        text
    } else {
        text + "；PID "@ + listed(still)
            + " 仍在占用该端口，可尝试「以管理员身份结束」或「重启设备」"@
    }
}

/// The text of an action's outcome, with the processes that still hold the port.
pub fn join_note(text: &str, still: &Vec<u32>) -> (out: String)
    ensures
        out@ == noted(text@, still@),
{
    let n: usize = still.len();
    let mut out = text_copy(text);
    if n == 0 {
        return out;
    }
    out.append("；PID ");
    let ghost start = out@;
    push_decimal(&mut out, still[0] as u64);
    let mut i: usize = 1;
    assert(still@.take(1)[0] == still@[0]);
    while i < n
        invariant
            1 <= i <= n,
            n == still@.len(),
            out@ == start + listed(still@.take(i as int)),
        decreases n - i,
    {
        proof {
            assert(still@.take(i + 1).drop_last() =~= still@.take(i as int));
            assert(still@.take(i + 1).last() == still@[i as int]);
        }
        out.append("、");
        push_decimal(&mut out, still[i] as u64);
        assert(out@ =~= start + listed(still@.take(i + 1)));
        i += 1;
    }
    assert(still@.take(n as int) =~= still@);
    out.append(
        " 仍在占用该端口，可尝试「以管理员身份结束」或「重启设备」",
    );
    out
}

/// What came of ending one process: directly, and where that failed and more
/// rights could be asked for, with those.
#[derive(Debug, PartialEq, Eq)]
pub struct Attempt {
    pub pid: u32,
    pub direct: Result<String, String>,
    pub privileged: Option<(String, bool)>,
}

/// What an attempt says.
pub open spec fn line_of(a: Attempt) -> Seq<char> {
    match (a.direct, a.privileged) {
        (Ok(text), _) => text@,
        (Err(_), Some(answer)) => answer.0@,
        (Err(text), None) => text@,
    }
}

/// Whether an attempt has failed.
pub open spec fn has_failed(a: Attempt) -> bool {
    a.direct is Err && (a.privileged matches Some(answer) ==> !answer.1)
}

/// What the attempts say, one after the other.
pub open spec fn lines_of(list: Seq<Attempt>) -> Seq<char>
    decreases list.len(),
{
    if list.len() == 0 {
        Seq::empty()
    } else if list.len() == 1 {
        line_of(list[0])
    } else {
        lines_of(list.drop_last()) + "；"@ + line_of(list.last())
    }
}

/// The processes of attempts.
pub open spec fn pids_of(list: Seq<Attempt>) -> Seq<u32> {
    list.map_values(|a: Attempt| a.pid)
}

/// Whether a process was the subject of an attempt that failed.
pub open spec fn failed_at(list: Seq<Attempt>, pid: u32) -> bool {
    exists|i: int| 0 <= i < list.len() && has_failed(#[trigger] list[i]) && list[i].pid == pid
}

/// Whether numbers rise.
pub open spec fn rising(s: Seq<u32>) -> bool {
    forall|i: int, j: int| 0 <= i < j < s.len() ==> #[trigger] s[i] < #[trigger] s[j]
}

/// Puts a number among others that rise, where it is not among them yet.
fn put_in_order(list: &mut Vec<u32>, pid: u32)
    requires
        rising(old(list)@),
    ensures
        rising(final(list)@),
        forall|x: u32| #[trigger] final(list)@.contains(x) <==> old(list)@.contains(x) || x == pid,
{
    let n: usize = list.len();
    let mut i: usize = 0;
    while i < n && list[i] < pid
        invariant
            i <= n,
            n == list@.len(),
            list@ == old(list)@,
            rising(list@),
            forall|k: int| 0 <= k < i ==> #[trigger] list@[k] < pid,
        decreases n - i,
    {
        i += 1;
    }
    if i < n && list[i] == pid {
        assert(list@[i as int] == pid);
        return;
    }
    list.insert(i, pid);
    proof {
        let before = old(list)@;
        assert(list@ =~= before.insert(i as int, pid));
        assert forall|x: u32| #[trigger] list@.contains(x) <==> before.contains(x) || x == pid by {
            if list@.contains(x) {
                let k = choose|k: int| 0 <= k < list@.len() && list@[k] == x;
                if k < i {
                    assert(before[k] == x);
                } else if k > i {
                    assert(before[k - 1] == x);
                }
            }
            if before.contains(x) {
                let k = choose|k: int| 0 <= k < before.len() && before[k] == x;
                if k < i {
                    assert(list@[k] == x);
                } else {
                    assert(list@[k + 1] == x);
                }
            }
            assert(list@[i as int] == pid);
        }
        assert forall|a: int, b: int| 0 <= a < b < list@.len() implies #[trigger] list@[a]
            < #[trigger] list@[b] by {
            let x = if a < i {
                before[a]
            } else if a == i {
                pid
            } else {
                before[a - 1]
            };
            assert(list@[a] == x);
            if b < i {
                assert(list@[b] == before[b]);
            } else if b > i {
                assert(list@[b] == before[b - 1]);
            }
        }
    }
}

/// The processes that did not end: those of the attempts that failed, and those
/// that still hold the port whatever the attempts said. In rising order, each
/// once.
pub fn failures(attempts: &Vec<Attempt>, still: &Vec<u32>) -> (out: Vec<u32>)
    ensures
        rising(out@),
        forall|pid: u32| #[trigger]
            out@.contains(pid) <==> failed_at(attempts@, pid) || still@.contains(pid),
{
    let mut out: Vec<u32> = Vec::new();
    let n: usize = attempts.len();
    let mut i: usize = 0;
    while i < n
        invariant
            i <= n,
            n == attempts@.len(),
            rising(out@),
            forall|pid: u32| #[trigger]
                out@.contains(pid) <==> exists|k: int|
                    0 <= k < i && has_failed(#[trigger] attempts@[k]) && attempts@[k].pid == pid,
        decreases n - i,
    {
        let ghost before = out@;
        let a: &Attempt = &attempts[i];
        let failed = match &a.direct {
            Ok(_) => false,
            Err(_) => match &a.privileged {
                Some(answer) => !answer.1,
                None => true,
            },
        };
        if failed {
            put_in_order(&mut out, a.pid);
        }
        proof {
            assert(failed == has_failed(attempts@[i as int]));
            assert forall|pid: u32| #[trigger] out@.contains(pid) <==> exists|k: int|
                0 <= k < i + 1 && has_failed(#[trigger] attempts@[k]) && attempts@[k].pid == pid by {
                if out@.contains(pid) && before.contains(pid) {
                    let k = choose|k: int|
                        0 <= k < i && has_failed(#[trigger] attempts@[k]) && attempts@[k].pid
                            == pid;
                    assert(has_failed(attempts@[k]));
                }
                if exists|k: int|
                    0 <= k < i + 1 && has_failed(#[trigger] attempts@[k]) && attempts@[k].pid
                        == pid {
                    let k = choose|k: int|
                        0 <= k < i + 1 && has_failed(#[trigger] attempts@[k]) && attempts@[k].pid
                            == pid;
                    if k < i {
                        assert(before.contains(pid));
                    }
                }
            }
        }
        i += 1;
    }
    let ghost first = out@;
    let m: usize = still.len();
    let mut j: usize = 0;
    while j < m
        invariant
            j <= m,
            m == still@.len(),
            rising(out@),
            forall|pid: u32| #[trigger]
                out@.contains(pid) <==> first.contains(pid) || still@.take(j as int).contains(pid),
        decreases m - j,
    {
        let ghost before = out@;
        put_in_order(&mut out, still[j]);
        proof {
            let x = still@[j as int];
            assert(still@.take(j + 1) =~= still@.take(j as int).push(x));
            assert forall|pid: u32| #[trigger] out@.contains(pid) <==> first.contains(pid)
                || still@.take(j + 1).contains(pid) by {
                let t = still@.take(j as int);
                if t.push(x).contains(pid) {
                    let k = choose|k: int| 0 <= k < t.push(x).len() && t.push(x)[k] == pid;
                    if k < t.len() {
                        assert(t[k] == pid);
                    }
                }
                if t.contains(pid) {
                    let k = choose|k: int| 0 <= k < t.len() && t[k] == pid;
                    assert(t.push(x)[k] == pid);
                }
                assert(t.push(x)[t.len() as int] == x);
                assert(before.contains(pid) <==> first.contains(pid) || t.contains(pid));
            }
        }
        j += 1;
    }
    assert(still@.take(m as int) =~= still@);
    out
}

fn line(a: &Attempt) -> (out: String)
    ensures
        out@ == line_of(*a),
{
    match &a.direct {
        Ok(text) => text_copy(text.as_str()),
        Err(text) => match &a.privileged {
            Some(answer) => text_copy(answer.0.as_str()),
            None => text_copy(text.as_str()),
        },
    }
}

fn join_lines(list: &Vec<Attempt>) -> (out: String)
    ensures
        out@ == lines_of(list@),
{
    let n: usize = list.len();
    if n == 0 {
        let out = String::new();
        assert(out@ =~= Seq::empty());
        return out;
    }
    let mut out: String = line(&list[0]);
    let mut i: usize = 1;
    assert(list@.take(1)[0] == list@[0]);
    while i < n
        invariant
            1 <= i <= n,
            n == list@.len(),
            out@ == lines_of(list@.take(i as int)),
        decreases n - i,
    {
        proof {
            assert(list@.take(i + 1).drop_last() =~= list@.take(i as int));
            assert(list@.take(i + 1).last() == list@[i as int]);
        }
        out.append("；");
        out.append(line(&list[i]).as_str());
        i += 1;
    }
    assert(list@.take(n as int) =~= list@);
    out
}

impl PortOwnerWindowModel {
    /// The phase after an action: a new scan shows who holds the port now, and
    /// without one the old list stays.
    pub open spec fn refreshed(self, report: Option<ReportModel>) -> PhaseModel {
        match report {
            Some(report) => PhaseModel::Listed { report },
            None => self.phase,
        }
    }
}

impl PortOwnerWindow {
    /// A window for a port, whose first scan is under way.
    pub fn new(port: String, retry: bool) -> (out: PortOwnerWindow)
        ensures
            out@ == (PortOwnerWindowModel {
                port: port@,
                retry,
                phase: PhaseModel::Scanning,
                note: None,
                note_ok: true,
                failed: Seq::empty(),
            }),
    {
        let out = PortOwnerWindow {
            port,
            retry,
            phase: Phase::Scanning,
            note: None,
            note_ok: true,
            failed: Vec::new(),
        };
        assert(out@.failed =~= Seq::empty());
        out
    }

    /// Starts another scan.
    pub fn rescan(&mut self)
        ensures
            final(self)@ == (PortOwnerWindowModel {
                phase: PhaseModel::Scanning,
                note: None,
                ..old(self)@
            }),
    {
        self.phase = Phase::Scanning;
        self.note = None;
    }

    /// A scan is done.
    pub fn scan_finished(&mut self, result: Result<Report, String>)
        ensures
            final(self)@ == (PortOwnerWindowModel {
                phase: match result {
                    Ok(report) => PhaseModel::Listed { report: report@ },
                    Err(error) => PhaseModel::Failed { error: error@ },
                },
                ..old(self)@
            }),
    {
        self.phase = match result {
            Ok(report) => Phase::Listed { report },
            Err(error) => Phase::Failed { error },
        };
    }

    /// An action is under way.
    pub fn busy(&mut self, text: &str)
        ensures
            final(self)@ == (PortOwnerWindowModel {
                note: Some(text@),
                note_ok: true,
                ..old(self)@
            }),
    {
        self.note = Some(text_copy(text));
        self.note_ok = true;
    }

    /// A process did not end, and more rights are asked for.
    pub fn asking_for_rights(&mut self, error: &str)
        ensures
            final(self)@ == (PortOwnerWindowModel {
                note: Some(error@ + "；请在弹出的授权窗口中确认"@),
                ..old(self)@
            }),
    {
        let mut text = text_copy(error);
        text.append("；请在弹出的授权窗口中确认");
        self.note = Some(text);
    }

    fn refresh(&mut self, report: Option<Report>)
        ensures
            final(self)@ == (PortOwnerWindowModel {
                phase: old(self)@.refreshed(report_model(report)),
                ..old(self)@
            }),
    {
        match report {
            Some(report) => {
                self.phase = Phase::Listed { report };
            },
            None => {},
        }
    }

    /// An action is done, and the port was looked at again.
    pub fn acted(&mut self, result: Result<String, String>, fresh: Option<Report>)
        ensures
            final(self)@ == (PortOwnerWindowModel {
                note: Some(
                    match result {
                        Ok(text) => text@,
                        Err(text) => text@,
                    },
                ),
                note_ok: result is Ok,
                phase: old(self)@.refreshed(report_model(fresh)),
                ..old(self)@
            }),
    {
        match result {
            Ok(text) => {
                self.note = Some(text);
                self.note_ok = true;
            },
            Err(text) => {
                self.note = Some(text);
                self.note_ok = false;
            },
        }
        self.refresh(fresh);
    }

    /// An action with more rights is done, and the port was looked at again. A
    /// process that still holds the port has not ended, whatever was said.
    pub fn privileged_done(
        &mut self,
        action: &Privileged,
        text: &str,
        ok: bool,
        fresh: Option<Report>,
    )
        ensures
            ({
                let attempted = match *action {
                    Privileged::Kill { pid } => seq![pid],
                    Privileged::Release { .. } => Seq::<u32>::empty(),
                };
                let still = still_holding(report_model(fresh), attempted);
                final(self)@ == (PortOwnerWindowModel {
                    note: Some(noted(text@, still)),
                    note_ok: ok && still.len() == 0,
                    failed: still,
                    phase: old(self)@.refreshed(report_model(fresh)),
                    ..old(self)@
                })
            }),
    {
        let mut attempted: Vec<u32> = Vec::new();
        match action {
            Privileged::Kill { pid } => {
                attempted.push(*pid);
                assert(attempted@ =~= seq![*pid]);
            },
            Privileged::Release { .. } => {
                assert(attempted@ =~= Seq::<u32>::empty());
            },
        }
        let still: Vec<u32> = confirm(&fresh, &attempted);
        self.note = Some(join_note(text, &still));
        self.note_ok = ok && still.len() == 0;
        self.failed = still;
        self.refresh(fresh);
    }

    /// Processes were to end, and the port was looked at again.
    pub fn ended(&mut self, attempts: &Vec<Attempt>, fresh: Option<Report>)
        ensures
            ({
                let still = still_holding(report_model(fresh), pids_of(attempts@));
                &&& final(self)@ == (PortOwnerWindowModel {
                    note: Some(noted(lines_of(attempts@), still)),
                    note_ok: final(self)@.failed.len() == 0,
                    failed: final(self)@.failed,
                    phase: old(self)@.refreshed(report_model(fresh)),
                    ..old(self)@
                })
                &&& rising(final(self)@.failed)
                &&& forall|pid: u32| #[trigger]
                    final(self)@.failed.contains(pid) <==> failed_at(attempts@, pid)
                        || still.contains(pid)
            }),
    {
        let mut pids: Vec<u32> = Vec::new();
        let n: usize = attempts.len();
        for i in 0..n
            invariant
                n == attempts@.len(),
                pids@.len() == i,
                forall|k: int| 0 <= k < i ==> #[trigger] pids@[k] == attempts@[k].pid,
        {
            pids.push(attempts[i].pid);
        }
        assert(pids@ =~= pids_of(attempts@));
        let still: Vec<u32> = confirm(&fresh, &pids);
        let failed: Vec<u32> = failures(attempts, &still);
        let text: String = join_lines(attempts);
        self.note = Some(join_note(text.as_str(), &still));
        self.note_ok = failed.len() == 0;
        self.failed = failed;
        self.refresh(fresh);
    }
}

/// A process that a new scan still finds counts as not ended, even where every
/// attempt to end it was said to have worked.
pub proof fn law_who_still_holds_has_not_ended(report: ReportModel, attempted: Seq<u32>, pid: u32)
    requires
        attempted.contains(pid),
        is_owner(report.owners, pid),
    ensures
        still_holding(Some(report), attempted).contains(pid),
{
    let p = |pid: u32| is_owner(report.owners, pid);
    broadcast use vstd::seq_lib::group_filter_ensures;

    assert(p(pid));
    let k = choose|k: int| 0 <= k < attempted.len() && attempted[k] == pid;
    assert(attempted.filter(p).contains(attempted[k]));
}

/// What the row of an owner offers.
#[derive(Clone, Copy, Debug, PartialEq, Eq, Structural)]
pub enum RowAction {
    /// Nothing: more rights would not help, the device has to be restarted.
    Stuck,
    /// To end it.
    Kill,
    /// To end it with more rights.
    PrivilegedKill,
    /// Nothing: this user has not the rights for it.
    NeedsRights,
}

/// What the row of an owner offers. One that did not end when it was asked to
/// is only tried again with more rights.
pub fn row_action(owner: &Owner, failed: &Vec<u32>, elevated: bool, can_elevate: bool) -> (out:
    RowAction)
    ensures
        ({
            let stuck = failed@.contains(owner.pid);
            out == (if stuck && elevated {
                RowAction::Stuck
            } else if !stuck && owner.killable {
                RowAction::Kill
            } else if can_elevate {
                RowAction::PrivilegedKill
            } else {
                RowAction::NeedsRights
            })
        }),
{
    let n: usize = failed.len();
    let mut stuck = false;
    let mut i: usize = 0;
    while i < n
        invariant
            i <= n,
            n == failed@.len(),
            stuck == exists|k: int| 0 <= k < i && #[trigger] failed@[k] == owner.pid,
        decreases n - i,
    {
        if failed[i] == owner.pid {
            stuck = true;
        }
        i += 1;
    }
    if stuck && elevated {
        RowAction::Stuck
    } else if !stuck && owner.killable {
        RowAction::Kill
    } else if can_elevate {
        RowAction::PrivilegedKill
    } else {
        RowAction::NeedsRights
    }
}

/// The owners that are in the way: all but the process that asks.
pub open spec fn in_the_way(owners: Seq<OwnerModel>, me: u32) -> Seq<OwnerModel> {
    owners.filter(|o: OwnerModel| o.pid != me)
}

/// Where the owners that are in the way stand in the list.
pub fn blockers(report: &Report, me: u32) -> (out: Vec<usize>)
    ensures
        forall|k: int| 0 <= k < out@.len() ==> (#[trigger] out@[k]) < report@.owners.len(),
        out@.map_values(|i: usize| report@.owners[i as int]) == in_the_way(report@.owners, me),
{
    let n: usize = report.owners.len();
    let mut out: Vec<usize> = Vec::new();
    let mut i: usize = 0;
    let ghost p = |o: OwnerModel| o.pid != me;
    let ghost at = |i: usize| report@.owners[i as int];
    proof {
        reveal(Seq::filter);
        assert(report@.owners.take(0) =~= Seq::empty());
        assert(out@.map_values(at) =~= Seq::empty());
    }
    while i < n
        invariant
            i <= n,
            n == report@.owners.len(),
            n == report.owners@.len(),
            p == (|o: OwnerModel| o.pid != me),
            at == (|i: usize| report@.owners[i as int]),
            forall|k: int| 0 <= k < out@.len() ==> (#[trigger] out@[k]) < n,
            out@.map_values(at) == report@.owners.take(i as int).filter(p),
        decreases n - i,
    {
        reveal(Seq::filter);
        let ghost before = out@;
        proof {
            let all = report@.owners;
            assert(all.take(i + 1).drop_last() =~= all.take(i as int));
            assert(all.take(i + 1).last() == all[i as int]);
            assert(all[i as int] == report.owners@[i as int]@);
        }
        if !report.owners[i].is_self(me) {
            out.push(i);
            assert(out@.map_values(at) =~= before.map_values(at).push(at(i)));
        }
        i += 1;
    }
    assert(report@.owners.take(n as int) =~= report@.owners);
    out
}

/// The owners that are in the way and may be ended.
pub open spec fn endable(owners: Seq<OwnerModel>, me: u32) -> Seq<u32> {
    in_the_way(owners, me).filter(|o: OwnerModel| o.killable).map_values(|o: OwnerModel| o.pid)
}

/// The processes that ending all of them would end. It is offered only where
/// there is more than one.
pub fn kill_all(report: &Report, me: u32) -> (out: Option<Vec<u32>>)
    ensures
        match out {
            Some(pids) => pids@ == endable(report@.owners, me) && pids@.len() > 1,
            None => endable(report@.owners, me).len() <= 1,
        },
{
    let list: Vec<usize> = blockers(report, me);
    let ghost way = in_the_way(report@.owners, me);
    let ghost at = |i: usize| report@.owners[i as int];
    let ghost p = |o: OwnerModel| o.killable;
    let ghost id = |o: OwnerModel| o.pid;
    let n: usize = list.len();
    let mut pids: Vec<u32> = Vec::new();
    let mut i: usize = 0;
    proof {
        reveal(Seq::filter);
        assert(list@.map_values(at) == way);
        assert(way.take(0) =~= Seq::empty());
        assert(way.take(0).filter(p).map_values(id) =~= Seq::empty());
    }
    while i < n
        invariant
            i <= n,
            n == list@.len(),
            n == way.len(),
            p == (|o: OwnerModel| o.killable),
            id == (|o: OwnerModel| o.pid),
            at == (|i: usize| report@.owners[i as int]),
            way == list@.map_values(at),
            forall|k: int| 0 <= k < n ==> (#[trigger] list@[k]) < report.owners@.len(),
            report@.owners.len() == report.owners@.len(),
            pids@ == way.take(i as int).filter(p).map_values(id),
        decreases n - i,
    {
        reveal(Seq::filter);
        let k: usize = list[i];
        proof {
            assert(way.take(i + 1).drop_last() =~= way.take(i as int));
            assert(way.take(i + 1).last() == way[i as int]);
            assert(way[i as int] == report@.owners[k as int]);
            assert(report@.owners[k as int] == report.owners@[k as int]@);
        }
        if report.owners[k].killable {
            pids.push(report.owners[k].pid);
            assert(pids@ =~= way.take(i + 1).filter(p).map_values(id));
        }
        i += 1;
    }
    assert(way.take(n as int) =~= way);
    if pids.len() > 1 {
        Some(pids)
    } else {
        None
    }
}

/// Whether the device is restarted with more rights: where the program has not
/// got them, and can ask.
pub fn releases_privileged(elevated: bool, can_elevate: bool) -> (yes: bool)
    ensures
        yes == (!elevated && can_elevate),
{
    !elevated && can_elevate
}

/// What is said of processes that could not be looked into. It matters only
/// where nothing was found.
pub fn hidden_hint(hidden: usize, blocked: bool) -> (out: Option<String>)
    ensures
        match out {
            Some(text) => !blocked && hidden > 0 && text@ == "另有 "@ + decimal(hidden as nat)
                + " 个进程受保护；以管理员身份运行可查看。"@,
            None => blocked || hidden == 0,
        },
{
    if blocked || hidden == 0 {
        return None;
    }
    let mut text = text_copy("另有 ");
    push_decimal(&mut text, hidden as u64);
    text.append(" 个进程受保护；以管理员身份运行可查看。");
    Some(text)
}

/// What is said of the programs that are in the way.
pub fn blocked_text(count: usize) -> (out: String)
    ensures
        out@ == "⚠ 端口被 "@ + decimal(count as nat) + " 个程序占用"@,
{
    let mut out = text_copy("⚠ 端口被 ");
    push_decimal(&mut out, count as u64);
    out.append(" 个程序占用");
    out
}

/// A connection over a serial port that waits until it is known whether another
/// program holds the port.
pub struct SerialProbe {
    pub tab: u64,
    pub pane: u64,
    pub kind: SessionKind,
    /// The port counts as free, once that is known.
    pub result: Option<bool>,
}

impl SerialProbe {
    /// A connection whose port has not been looked at.
    pub fn start(tab: u64, pane: u64, kind: SessionKind) -> (out: SerialProbe)
        ensures
            out.tab == tab,
            out.pane == pane,
            out.kind == kind,
            out.result is None,
    {
        SerialProbe { tab, pane, kind, result: None }
    }

    /// The port to look at.
    pub fn port(&self) -> (out: String)
        ensures
            out@ == (match self.kind@ {
                KindModel::Serial(p) => p.port,
                _ => Seq::empty(),
            }),
    {
        match &self.kind {
            SessionKind::Serial(p) => text_copy(p.port.as_str()),
            _ => {
                let out = String::new();
                assert(out@ =~= Seq::empty());
                out
            },
        }
    }

    /// The port was looked at. A look that failed must not keep anyone from
    /// connecting: opening the port shows what is wrong.
    pub fn finish(&mut self, free: Result<bool, String>)
        ensures
            final(self).tab == old(self).tab,
            final(self).pane == old(self).pane,
            final(self).kind == old(self).kind,
            final(self).result == Some(free matches Ok(f) ==> f),
    {
        self.result = match free {
            Ok(f) => Some(f),
            Err(_) => Some(true),
        };
    }

    /// Whether the port counts as free, once that is known.
    pub fn take(&self) -> (out: Option<bool>)
        ensures
            out == self.result,
    {
        self.result
    }

    /// The connection that waits.
    pub fn parts(self) -> (out: (u64, u64, SessionKind))
        ensures
            out == (self.tab, self.pane, self.kind),
    {
        (self.tab, self.pane, self.kind)
    }
}

/// A text begins with the first part of it, and with nothing that differs from it.
pub proof fn law_what_a_text_begins_with(start: Seq<char>, rest: Seq<char>, other: Seq<char>)
    ensures
        begins(start + rest, start),
        other.len() == start.len() && other != start ==> !begins(start + rest, other),
        other.len() > start.len() ==> !begins(start, other),
{
    assert((start + rest).take(start.len() as int) =~= start);
}

/// What is said of an attempt with more rights: why it could not be started, what it
/// reported, which is no success where the report begins with a failure, or that no report
/// has come.
pub proof fn law_what_is_said_of_an_attempt(started: Result<(), String>, report: Option<String>)
    ensures
        started matches Err(e) ==> answer(started, report) == (e@, false),
        started is Ok && report is None ==> answer(started, report) == (
            "已授权，但没有收到执行结果"@,
            false,
        ),
        started is Ok ==> (report matches Some(text) ==> answer(started, report).0 == text@ && (
        answer(started, report).1 <==> !(text@.len() >= 2 && text@[0] == '失' && text@[1]
            == '败'))),
{
    reveal_strlit("失败");
    assert("失败"@ =~= seq!['失', '败']);
    if started is Ok && report is Some {
        let text = report->0;
        if text@.len() >= 2 {
            assert(text@.take(2)[0] == text@[0]);
            assert(text@.take(2)[1] == text@[1]);
            if text@[0] == '失' && text@[1] == '败' {
                assert(text@.take(2) =~= "失败"@);
            }
        }
    }
}

/// Numbers are listed in their order, one after the other and parted by a mark.
pub proof fn law_how_numbers_are_listed(pids: Seq<u32>, pid: u32)
    ensures
        listed(Seq::empty()).len() == 0,
        listed(seq![pid]) == decimal(pid as nat),
        pids.len() > 0 ==> listed(pids.push(pid)) == listed(pids) + seq!['、'] + decimal(
            pid as nat,
        ),
{
    reveal_strlit("、");
    assert("、"@ =~= seq!['、']);
    assert(pids.push(pid).drop_last() =~= pids);
}

/// Where nobody holds the port any more the note stays as it is. Else it goes on with
/// those who do, and with what can still be done.
pub proof fn law_what_a_note_goes_on_with(text: Seq<char>, still: Seq<u32>)
    ensures
        still.len() == 0 ==> noted(text, still) == text,
        still.len() > 0 ==> noted(text, still) == text + "；PID "@ + listed(still)
            + " 仍在占用该端口，可尝试「以管理员身份结束」或「重启设备」"@,
{
}

/// What is said of the end of a process: what ending it directly gave where that
/// succeeded, else what the attempt with more rights gave, else why it failed. It has
/// failed where neither has succeeded.
pub proof fn law_what_is_said_of_the_end(a: Attempt)
    ensures
        a.direct matches Ok(text) ==> line_of(a) == text@ && !has_failed(a),
        a.direct is Err ==> (a.privileged matches Some(answer) ==> line_of(a) == answer.0@
            && has_failed(a) == !answer.1),
        a.direct matches Err(text) ==> (a.privileged is None ==> line_of(a) == text@ && has_failed(
            a,
        )),
{
}

/// The lines of several attempts follow each other in their order, parted by a mark.
pub proof fn law_how_attempts_are_told(list: Seq<Attempt>, a: Attempt)
    ensures
        lines_of(Seq::empty()).len() == 0,
        lines_of(seq![a]) == line_of(a),
        list.len() > 0 ==> lines_of(list.push(a)) == lines_of(list) + seq!['；'] + line_of(a),
        pids_of(list.push(a)) == pids_of(list).push(a.pid),
        failed_at(seq![a], a.pid) == has_failed(a),
{
    reveal_strlit("；");
    assert("；"@ =~= seq!['；']);
    assert(list.push(a).drop_last() =~= list);
    assert(pids_of(list.push(a)) =~= pids_of(list).push(a.pid));
    assert(seq![a][0] == a);
}

/// Of those who were asked to end, exactly the ones that the new report still lists still
/// hold the port. Without a new report none is said to.
pub proof fn law_who_still_holds_the_port(
    report: Option<ReportModel>,
    attempted: Seq<u32>,
    pid: u32,
)
    ensures
        report is None ==> still_holding(report, attempted).len() == 0,
        report matches Some(r) ==> (still_holding(report, attempted).contains(pid) <==> (
        attempted.contains(pid) && exists|i: int|
            0 <= i < r.owners.len() && (#[trigger] r.owners[i]).pid == pid)),
{
    if let Some(r) = report {
        let p = |pid: u32| is_owner(r.owners, pid);
        let kept = attempted.filter(p);
        broadcast use vstd::seq_lib::group_filter_ensures;

        if kept.contains(pid) {
            attempted.lemma_filter_contains_rev(p, pid);
            assert(p(pid));
        }
        if attempted.contains(pid) && is_owner(r.owners, pid) {
            assert(p(pid));
            let k = choose|k: int| 0 <= k < attempted.len() && attempted[k] == pid;
            assert(kept.contains(attempted[k]));
        }
    }
}

/// The window shows a new report where one has come, and what it showed before where none
/// has.
pub proof fn law_what_the_window_shows(w: PortOwnerWindowModel, report: Option<ReportModel>)
    ensures
        report matches Some(r) ==> w.refreshed(report) == (PhaseModel::Listed { report: r }),
        report is None ==> w.refreshed(report) == w.phase,
{
}

/// The owners that can be ended are those that are not this program itself and that may be
/// ended.
pub proof fn law_who_can_be_ended(owners: Seq<OwnerModel>, me: u32, pid: u32)
    ensures
        endable(owners, me).contains(pid) <==> pid != me && exists|i: int|
            0 <= i < owners.len() && (#[trigger] owners[i]).pid == pid && owners[i].killable,
{
    let p = |o: OwnerModel| o.pid != me;
    let q = |o: OwnerModel| o.killable;
    let others = owners.filter(p);
    let can = others.filter(q);
    let out = endable(owners, me);
    broadcast use vstd::seq_lib::group_filter_ensures;

    if out.contains(pid) {
        let k = choose|k: int| 0 <= k < out.len() && out[k] == pid;
        assert(can[k].pid == pid);
        assert(can.contains(can[k]));
        assert(q(can[k]));
        others.lemma_filter_contains_rev(q, can[k]);
        assert(p(can[k]));
        owners.lemma_filter_contains_rev(p, can[k]);
        let i = choose|i: int| 0 <= i < owners.len() && owners[i] == can[k];
        assert(owners[i].pid == pid && owners[i].killable);
    }
    if pid != me && exists|i: int|
        0 <= i < owners.len() && (#[trigger] owners[i]).pid == pid && owners[i].killable {
        let i = choose|i: int|
            0 <= i < owners.len() && (#[trigger] owners[i]).pid == pid && owners[i].killable;
        assert(p(owners[i]) && q(owners[i]));
        assert(others.contains(owners[i]));
        let j = choose|j: int| 0 <= j < others.len() && others[j] == owners[i];
        assert(can.contains(others[j]));
        let k = choose|k: int| 0 <= k < can.len() && can[k] == others[j];
        assert(out[k] == pid);
    }
}

/// The model of the window holds all that it shows.
pub proof fn law_models_hold_the_window(w: PortOwnerWindow)
    ensures
        w@.port == w.port@ && w@.retry == w.retry && w@.note_ok == w.note_ok,
        w@.failed == w.failed@ && w@.phase == w.phase@,
        w.note is None ==> w@.note is None,
        w.note matches Some(text) ==> w@.note == Some(text@),
        w.phase is Scanning ==> w@.phase is Scanning,
        w.phase matches Phase::Listed { report } ==> w@.phase == (PhaseModel::Listed {
            report: report@,
        }),
        w.phase matches Phase::Failed { error } ==> w@.phase == (PhaseModel::Failed {
            error: error@,
        }),
{
}

/// A list that rises holds no number twice, and each is less than those behind it.
pub proof fn law_rising_numbers(s: Seq<u32>, i: int, j: int)
    ensures
        rising(s) && 0 <= i < j < s.len() ==> s[i] < s[j],
        rising(s) ==> s.no_duplicates(),
        0 <= i < j < s.len() && s[i] >= s[j] ==> !rising(s),
        (forall|a: int, b: int| 0 <= a < b < s.len() ==> #[trigger] s[a] < #[trigger] s[b])
            ==> rising(s),
{
}

/// The owners that are in the way are all but this program itself, in their order.
pub proof fn law_who_is_in_the_way(owners: Seq<OwnerModel>, o: OwnerModel, me: u32)
    ensures
        in_the_way(Seq::empty(), me).len() == 0,
        o.pid == me ==> in_the_way(owners.push(o), me) == in_the_way(owners, me),
        o.pid != me ==> in_the_way(owners.push(o), me) == in_the_way(owners, me).push(o),
{
    reveal(Seq::filter);
    assert(owners.push(o).drop_last() =~= owners);
}

} // verus!
