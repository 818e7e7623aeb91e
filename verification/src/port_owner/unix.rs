//! What Linux and macOS have in common: a process is ended by signals.

use crate::config::profile::text_copy;
use crate::port_owner::{KillAction, KillEvent, KillStep};
use vstd::prelude::*;

verus! {

/// How long a process that was asked to stop is waited for, in milliseconds.
pub const ASK_MS: u64 = 1500;

/// How long a process that was ended by force is waited for, in milliseconds.
pub const FORCE_MS: u64 = 1000;

/// The largest number that a process can have: `kill` takes a signed number, and
/// reads a negative one as a group of processes.
pub const MAX_PID: u32 = 0x7fff_ffff;

/// Whether a number can be that of one process. Zero stands for the group of the
/// caller.
pub open spec fn names_process(pid: u32) -> bool {
    0 < pid <= MAX_PID
}

/// What to do next to a process that is to end. To open it is to ask whether it
/// is there and takes signals from this program: what is not there cannot be
/// ended.
pub open spec fn kill_step(pid: u32, me: u32, event: KillEvent) -> KillStep {
    match event {
        KillEvent::Begin => if pid == me {
            KillStep::Done { outcome: Err("那是本程序自己，不能结束"@) }
        } else if !names_process(pid) {
            KillStep::Done { outcome: Err("该进程不存在"@) }
        } else {
            KillStep::Open
        },
        KillEvent::Opened { ok } => if ok {
            KillStep::Ask { wait_ms: ASK_MS }
        } else {
            KillStep::Done {
                outcome: Err("该进程不存在，或没有权限结束它，请用 root 权限重试"@),
            }
        },
        KillEvent::Asked { gone, .. } => if gone {
            KillStep::Done { outcome: Ok("已发送 SIGTERM，进程已退出"@) }
        } else {
            KillStep::Force { wait_ms: FORCE_MS }
        },
        KillEvent::Forced { gone, .. } => if gone {
            KillStep::Done {
                outcome: Ok("进程忽略 SIGTERM，已用 SIGKILL 强制结束"@),
            }
        } else {
            KillStep::Done { outcome: Err("进程仍未退出，请用 root 权限重试"@) }
        },
    }
}

/// What to do next to a process that is to end: where it is there, it is sent the
/// signal to stop, and the one that it cannot ignore only where it stays.
pub fn kill(pid: u32, me: u32, event: KillEvent) -> (out: KillAction)
    ensures
        out@ == kill_step(pid, me, event),
{
    match event {
        KillEvent::Begin => if pid == me {
            KillAction::Done { outcome: Err(text_copy("那是本程序自己，不能结束")) }
        } else if pid == 0 || pid > MAX_PID {
            KillAction::Done { outcome: Err(text_copy("该进程不存在")) }
        } else {
            KillAction::Open
        },
        KillEvent::Opened { ok } => if ok {
            KillAction::Ask { wait_ms: ASK_MS }
        } else {
            KillAction::Done {
                outcome: Err(
                    text_copy("该进程不存在，或没有权限结束它，请用 root 权限重试"),
                ),
            }
        },
        KillEvent::Asked { gone, .. } => if gone {
            KillAction::Done { outcome: Ok(text_copy("已发送 SIGTERM，进程已退出")) }
        } else {
            KillAction::Force { wait_ms: FORCE_MS }
        },
        KillEvent::Forced { gone, .. } => if gone {
            KillAction::Done {
                outcome: Ok(text_copy("进程忽略 SIGTERM，已用 SIGKILL 强制结束")),
            }
        } else {
            KillAction::Done {
                outcome: Err(text_copy("进程仍未退出，请用 root 权限重试")),
            }
        },
    }
}

/// How a process is ended on Unix: not where it is this program or has no number that a
/// process can have, else it is looked for, asked to end within a second and a half,
/// and forced to within another second.
pub proof fn law_how_a_process_is_ended(pid: u32, me: u32, windows: u32)
    ensures
        pid == me ==> kill_step(pid, me, KillEvent::Begin) == (KillStep::Done {
            outcome: Err("那是本程序自己，不能结束"@),
        }),
        pid != me && (pid == 0 || pid > 2147483647) ==> kill_step(pid, me, KillEvent::Begin) == (
        KillStep::Done { outcome: Err("该进程不存在"@) }),
        pid != me && 0 < pid <= 2147483647 ==> kill_step(pid, me, KillEvent::Begin) is Open,
        kill_step(pid, me, KillEvent::Opened { ok: true }) == (KillStep::Ask { wait_ms: 1500 }),
        kill_step(pid, me, KillEvent::Opened { ok: false }) == (KillStep::Done {
            outcome: Err("该进程不存在，或没有权限结束它，请用 root 权限重试"@),
        }),
        kill_step(pid, me, KillEvent::Asked { windows, gone: true }) == (KillStep::Done {
            outcome: Ok("已发送 SIGTERM，进程已退出"@),
        }),
        kill_step(pid, me, KillEvent::Asked { windows, gone: false }) == (KillStep::Force {
            wait_ms: 1000,
        }),
        kill_step(pid, me, KillEvent::Forced { windows, gone: true }) == (KillStep::Done {
            outcome: Ok("进程忽略 SIGTERM，已用 SIGKILL 强制结束"@),
        }),
        kill_step(pid, me, KillEvent::Forced { windows, gone: false }) == (KillStep::Done {
            outcome: Err("进程仍未退出，请用 root 权限重试"@),
        }),
{
}

} // verus!
