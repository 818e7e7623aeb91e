//! Finding the program that is holding a serial port. No platform answers the
//! question directly, so each one's list of open handles is walked; what the
//! lists mean is decided here. The caller reads the lists, and carries out the
//! actions that these functions hand back.

pub mod linux;
pub mod macos;
pub mod unix;
pub mod unsupported;
pub mod windows;

use crate::text::optional;
use vstd::prelude::*;

verus! {

/// The platforms that differ in how a port's owners are found.
#[derive(Clone, Copy, Debug, PartialEq, Eq, Structural)]
pub enum Platform {
    Linux,
    Macos,
    Windows,
    Other,
}

impl Platform {
    /// Whether a port's owners can be found.
    pub fn supported(self) -> (yes: bool)
        ensures
            yes == (self != Platform::Other),
    {
        self != Platform::Other
    }

    /// Whether the device under a port can be restarted.
    pub fn can_release(self) -> (yes: bool)
        ensures
            yes == (self == Platform::Linux || self == Platform::Windows),
    {
        self == Platform::Linux || self == Platform::Windows
    }

    /// Whether an action can be run with more rights than the caller has.
    pub fn can_elevate(self) -> (yes: bool)
        ensures
            yes == (self == Platform::Linux || self == Platform::Windows),
    {
        self == Platform::Linux || self == Platform::Windows
    }
}

/// One process that has the port open.
#[derive(Debug, PartialEq, Eq)]
pub struct Owner {
    pub pid: u32,
    /// The executable's file name, or a command name when that is all there is.
    pub name: String,
    /// The executable's path, when it could be read.
    pub path: Option<String>,
    /// The current user is allowed to end it.
    pub killable: bool,
}

/// An owner as a value.
#[verifier::ext_equal]
pub struct OwnerModel {
    pub pid: u32,
    pub name: Seq<char>,
    pub path: Option<Seq<char>>,
    pub killable: bool,
}

impl View for Owner {
    type V = OwnerModel;

    open spec fn view(&self) -> OwnerModel {
        OwnerModel {
            pid: self.pid,
            name: self.name@,
            path: optional(self.path),
            killable: self.killable,
        }
    }
}

/// Owners as values.
pub open spec fn owner_models(list: Seq<Owner>) -> Seq<OwnerModel> {
    list.map_values(|o: Owner| o@)
}

/// What one scan found.
#[derive(Debug, PartialEq, Eq)]
pub struct Report {
    /// The port that the scan looked at.
    pub port: String,
    pub owners: Vec<Owner>,
    /// How many processes could not be looked into. Where there are any, the
    /// list may be short rather than empty.
    pub hidden: usize,
}

/// A report as a value.
#[verifier::ext_equal]
pub struct ReportModel {
    pub port: Seq<char>,
    pub owners: Seq<OwnerModel>,
    pub hidden: nat,
}

impl View for Report {
    type V = ReportModel;

    open spec fn view(&self) -> ReportModel {
        ReportModel {
            port: self.port@,
            owners: owner_models(self.owners@),
            hidden: self.hidden as nat,
        }
    }
}

/// The outcome of a scan, as a value.
pub open spec fn scanned(r: Result<Report, String>) -> Result<ReportModel, Seq<char>> {
    match r {
        Ok(x) => Ok(x@),
        Err(e) => Err(e@),
    }
}

/// The outcome of an action, as a value.
pub open spec fn said(r: Result<String, String>) -> Result<Seq<char>, Seq<char>> {
    match r {
        Ok(x) => Ok(x@),
        Err(e) => Err(e@),
    }
}

impl Owner {
    /// Whether this is the process `me`: ending the process that asks is no way
    /// to free a port.
    pub fn is_self(&self, me: u32) -> (yes: bool)
        ensures
            yes == (self.pid == me),
    {
        self.pid == me
    }
}

/// Whether every owner is the process `me`.
pub open spec fn only_self(owners: Seq<OwnerModel>, me: u32) -> bool {
    forall|i: int| 0 <= i < owners.len() ==> (#[trigger] owners[i]).pid == me
}

/// Whether the process that asks has the rights of the administrator. On Unix
/// that is its user; on Windows its token says so.
pub fn elevated(platform: Platform, uid: u32, token: Option<u32>) -> (yes: bool)
    ensures
        yes == (match platform {
            Platform::Linux | Platform::Macos => uid == 0,
            Platform::Windows => token is Some && token != Some(0u32),
            Platform::Other => false,
        }),
{
    match platform {
        Platform::Linux => linux::elevated(uid),
        Platform::Macos => macos::elevated(uid),
        Platform::Windows => windows::elevated(token),
        Platform::Other => unsupported::elevated(),
    }
}

/// What a scan reports: what was found of the port that the caller's choice
/// stands for, or the reason why either failed.
pub fn scan(resolved: Result<String, String>, found: Result<Report, String>) -> (out: Result<
    Report,
    String,
>)
    ensures
        match (resolved, found) {
            (Err(e), _) => out matches Err(x) && x@ == e@,
            (Ok(_), Err(e)) => out matches Err(x) && x@ == e@,
            (Ok(port), Ok(report)) => out matches Ok(x) && x@ == (ReportModel {
                port: port@,
                ..report@
            }),
        },
{
    match resolved {
        Err(e) => Err(e),
        Ok(port) => match found {
            Err(e) => Err(e),
            Ok(report) => Ok(Report { port, owners: report.owners, hidden: report.hidden }),
        },
    }
}

/// What has happened to a process that is to end.
#[derive(Clone, Copy, Debug, PartialEq, Eq, Structural)]
pub enum KillEvent {
    /// Nothing yet.
    Begin,
    /// It was opened for that, or could not be: it is not there, or not to be
    /// ended from here.
    Opened { ok: bool },
    /// It was asked to stop: so many of its windows were closed, and after the
    /// wait it was gone or not.
    Asked { windows: u32, gone: bool },
    /// It was ended by force, which worked or not.
    Forced { windows: u32, gone: bool },
}

/// What to do to a process that is to end.
#[derive(Debug, PartialEq, Eq)]
pub enum KillAction {
    /// Open it.
    Open,
    /// Ask it to stop, and wait for that many milliseconds at most.
    Ask { wait_ms: u64 },
    /// End it by force, and wait for that many milliseconds at most.
    Force { wait_ms: u64 },
    /// Nothing more: this is what came of it.
    Done { outcome: Result<String, String> },
}

/// What to do to a process that is to end, as a value.
#[verifier::ext_equal]
pub enum KillStep {
    Open,
    Ask { wait_ms: u64 },
    Force { wait_ms: u64 },
    Done { outcome: Result<Seq<char>, Seq<char>> },
}

impl View for KillAction {
    type V = KillStep;

    open spec fn view(&self) -> KillStep {
        match self {
            KillAction::Open => KillStep::Open,
            KillAction::Ask { wait_ms } => KillStep::Ask { wait_ms: *wait_ms },
            KillAction::Force { wait_ms } => KillStep::Force { wait_ms: *wait_ms },
            KillAction::Done { outcome } => KillStep::Done { outcome: said(*outcome) },
        }
    }
}

/// What to do next to a process that is to end.
pub open spec fn kill_step(platform: Platform, pid: u32, me: u32, event: KillEvent) -> KillStep {
    match platform {
        Platform::Linux | Platform::Macos => unix::kill_step(pid, me, event),
        Platform::Windows => windows::kill_step(pid, me, event),
        Platform::Other => KillStep::Done {
            outcome: Err("此平台尚不支持结束占用串口的进程"@),
        },
    }
}

/// What to do next to a process that is to end: it is asked to stop, and
/// forced only where it does not.
pub fn kill(platform: Platform, pid: u32, me: u32, event: KillEvent) -> (out: KillAction)
    ensures
        out@ == kill_step(platform, pid, me, event),
{
    match platform {
        Platform::Linux => linux::kill(pid, me, event),
        Platform::Macos => macos::kill(pid, me, event),
        Platform::Windows => windows::kill(pid, me, event),
        Platform::Other => KillAction::Done { outcome: unsupported::kill(pid) },
    }
}

/// No platform ends the process that asks.
pub proof fn law_nothing_ends_itself(platform: Platform, me: u32)
    ensures
        kill_step(platform, me, me, KillEvent::Begin) matches KillStep::Done { outcome }
            && outcome is Err,
{
}

/// A process is reported as ended only after it was seen to be gone.
pub proof fn law_success_means_gone(platform: Platform, pid: u32, me: u32, event: KillEvent)
    requires
        kill_step(platform, pid, me, event) matches KillStep::Done { outcome } && outcome is Ok,
    ensures
        match event {
            KillEvent::Asked { gone, .. } => gone,
            KillEvent::Forced { gone, .. } => gone,
            _ => false,
        },
{
}

/// A process that could not be opened is reported as a failure, and nothing is
/// done to it: before it is asked to stop, it was opened.
pub proof fn law_what_is_not_there_is_not_ended(platform: Platform, pid: u32, me: u32)
    ensures
        kill_step(platform, pid, me, KillEvent::Opened { ok: false }) matches KillStep::Done {
            outcome,
        } && outcome is Err,
        match kill_step(platform, pid, me, KillEvent::Begin) {
            KillStep::Open => true,
            KillStep::Done { outcome } => outcome is Err,
            _ => false,
        },
        forall|event: KillEvent| #[trigger]
            kill_step(platform, pid, me, event) is Ask ==> event == (KillEvent::Opened {
                ok: true,
            }),
{
}

/// Force comes only after the process was asked and did not stop.
pub proof fn law_force_comes_last(platform: Platform, pid: u32, me: u32, event: KillEvent)
    requires
        kill_step(platform, pid, me, event) is Force,
    ensures
        event matches KillEvent::Asked { gone, .. } && !gone,
{
}

/// How the device under a port is restarted.
#[derive(Debug, PartialEq, Eq)]
pub enum ReleasePlan {
    /// By taking its driver away and giving it back.
    Rebind { port: String },
    /// By asking its class for it.
    Restart { port: String },
    /// Not at all, for this reason.
    Refused { reason: String },
}

/// How the device under a port is restarted on a platform. The port is the one
/// that the caller's choice stands for, or the reason why it stands for none.
pub fn release(platform: Platform, resolved: Result<String, String>) -> (out: ReleasePlan)
    ensures
        match (resolved, platform) {
            (Err(e), _) => out matches ReleasePlan::Refused { reason } && reason@ == e@,
            (Ok(name), Platform::Linux) => out matches ReleasePlan::Rebind { port } && port@
                == name@,
            (Ok(name), Platform::Windows) => out matches ReleasePlan::Restart { port } && port@
                == name@,
            (Ok(_), Platform::Macos) => out matches ReleasePlan::Refused { reason } && reason@
                == "macOS 上无法单独重启串口设备，请结束占用它的进程"@,
            (Ok(_), Platform::Other) => out matches ReleasePlan::Refused { reason } && reason@
                == "此平台尚不支持重启串口设备"@,
        },
{
    match resolved {
        Err(reason) => ReleasePlan::Refused { reason },
        Ok(port) => match platform {
            Platform::Linux => ReleasePlan::Rebind { port },
            Platform::Windows => ReleasePlan::Restart { port },
            Platform::Macos => match macos::release(port.as_str()) {
                Ok(reason) => ReleasePlan::Refused { reason },
                Err(reason) => ReleasePlan::Refused { reason },
            },
            Platform::Other => match unsupported::release(port.as_str()) {
                Ok(reason) => ReleasePlan::Refused { reason },
                Err(reason) => ReleasePlan::Refused { reason },
            },
        },
    }
}

/// Linux and macOS end processes in the same way, Windows in its own, and no other system
/// does at all.
pub proof fn law_who_ends_processes(pid: u32, me: u32, event: KillEvent)
    ensures
        kill_step(Platform::Linux, pid, me, event) == unix::kill_step(pid, me, event),
        kill_step(Platform::Macos, pid, me, event) == unix::kill_step(pid, me, event),
        kill_step(Platform::Windows, pid, me, event) == windows::kill_step(pid, me, event),
        kill_step(Platform::Other, pid, me, event) == (KillStep::Done {
            outcome: Err("此平台尚不支持结束占用串口的进程"@),
        }),
{
}

/// A port is held by this program alone where no other process is listed.
pub proof fn law_held_by_this_program_alone(owners: Seq<OwnerModel>, me: u32, i: int)
    ensures
        owners.len() == 0 ==> only_self(owners, me),
        0 <= i < owners.len() && owners[i].pid != me ==> !only_self(owners, me),
        (forall|k: int| 0 <= k < owners.len() ==> (#[trigger] owners[k]).pid == me) ==> only_self(
            owners,
            me,
        ),
{
}

/// The models of owners, reports and results hold each of their fields.
pub proof fn law_models_hold_the_report(
    o: Owner,
    r: Report,
    outcome: Result<String, String>,
    i: int,
)
    ensures
        o@.pid == o.pid && o@.name == o.name@ && o@.killable == o.killable,
        o.path is None ==> o@.path is None,
        o.path matches Some(path) ==> o@.path == Some(path@),
        r@.port == r.port@ && r@.hidden == r.hidden && r@.owners.len() == r.owners@.len(),
        0 <= i < r.owners@.len() ==> r@.owners[i] == r.owners@[i]@,
        outcome matches Ok(text) ==> said(outcome) == Ok::<Seq<char>, Seq<char>>(text@),
        outcome matches Err(text) ==> said(outcome) == Err::<Seq<char>, Seq<char>>(text@),
        (KillAction::Open)@ is Open,
        forall|ms: u64| #[trigger] (KillAction::Ask { wait_ms: ms })@ == (KillStep::Ask { wait_ms: ms }),
        forall|ms: u64| #[trigger] (KillAction::Force { wait_ms: ms })@ == (KillStep::Force {
            wait_ms: ms,
        }),
        (KillAction::Done { outcome })@ == (KillStep::Done { outcome: said(outcome) }),
{
}

/// A scan that succeeds gives its report, and one that fails its reason.
pub proof fn law_models_hold_the_scan(r: Result<Report, String>)
    ensures
        r matches Ok(report) ==> scanned(r) == Ok::<ReportModel, Seq<char>>(report@),
        r matches Err(text) ==> scanned(r) == Err::<ReportModel, Seq<char>>(text@),
{
}

} // verus!
