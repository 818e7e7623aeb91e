//! The command line of the elevated helper: a copy of the program that runs one
//! action with more rights, writes what came of it to a file, and ends.

use crate::config::profile::text_copy;
use crate::port_owner::{
    kill_step, law_what_is_not_there_is_not_ended, said, KillEvent, KillStep, Platform,
};
use crate::text::{chars_of, holds_run, number, parse_number, same_str};
use vstd::prelude::*;

verus! {

/// Where the value of a flag stands: behind the first place that holds the flag
/// and is not the last.
pub open spec fn value_at(args: Seq<String>, flag: Seq<char>) -> Option<int>
    decreases args.len(),
{
    if args.len() < 2 {
        None
    } else if args[0]@ == flag {
        Some(1)
    } else {
        match value_at(args.skip(1), flag) {
            Some(i) => Some(i + 1),
            None => None,
        }
    }
}

/// Where the value of a flag stands.
pub fn find_value(args: &Vec<String>, flag: &str) -> (out: Option<usize>)
    ensures
        match out {
            Some(i) => i < args@.len() && value_at(args@, flag@) == Some(i as int),
            None => value_at(args@, flag@) is None,
        },
{
    let n: usize = args.len();
    let mut i: usize = 0;
    assert(args@.skip(0) =~= args@);
    while n - i >= 2
        invariant
            i <= n,
            n == args@.len(),
            match value_at(args@.skip(i as int), flag@) {
                Some(k) => value_at(args@, flag@) == Some(k + i),
                None => value_at(args@, flag@) is None,
            },
        decreases n - i,
    {
        proof {
            assert(args@.skip(i as int)[0] == args@[i as int]);
            assert(args@.skip(i as int).skip(1) =~= args@.skip(i + 1));
        }
        if same_str(args[i].as_str(), flag) {
            return Some(i + 1);
        }
        i += 1;
    }
    None
}

/// What the helper is asked for.
#[derive(Debug, PartialEq, Eq)]
pub enum HelperAction {
    /// To end a process.
    Kill { pid: u32 },
    /// To restart the device under a port.
    Release { port: String },
}

/// The process that the helper is asked to end.
pub open spec fn pid_in(args: Seq<String>) -> Option<int> {
    match value_at(args, "--kill-pid"@) {
        Some(i) => number(args[i]@, 10, u32::MAX as int),
        None => None,
    }
}

/// What the command line asks the helper for. Where it asks for nothing, the
/// program itself starts. A process to end comes before a port to free.
pub fn helper_action(args: &Vec<String>) -> (out: Option<HelperAction>)
    ensures
        match (pid_in(args@), value_at(args@, "--release-port"@)) {
            (Some(n), _) => out matches Some(HelperAction::Kill { pid }) && pid == n,
            (None, Some(i)) => out matches Some(HelperAction::Release { port }) && port@
                == args@[i]@,
            (None, None) => out is None,
        },
{
    match find_value(args, "--kill-pid") {
        Some(i) => match parse_number(chars_of(args[i].as_str()).as_slice(), 10, u32::MAX) {
            Some(pid) => {
                return Some(HelperAction::Kill { pid });
            },
            None => {},
        },
        None => {},
    }
    match find_value(args, "--release-port") {
        Some(i) => Some(HelperAction::Release { port: text_copy(args[i].as_str()) }),
        None => None,
    }
}

/// How long the report of the helper is waited for, in milliseconds: the user may
/// take a moment to answer the prompt for more rights.
pub const REPORT_WAIT_MS: u64 = 30000;

/// How long to wait before the report is looked for again, in milliseconds.
pub const REPORT_PAUSE_MS: u64 = 150;

/// How long to wait before the report is looked for again, or none once it was
/// waited for long enough.
pub fn report_pause(waited_ms: u64) -> (out: Option<u64>)
    ensures
        out == (if waited_ms < REPORT_WAIT_MS {
            Some(REPORT_PAUSE_MS)
        } else {
            None
        }),
        waited_ms < 30 * 1000 ==> out == Some(150u64),
        waited_ms >= 30 * 1000 ==> out is None,
{
    if waited_ms < REPORT_WAIT_MS {
        Some(REPORT_PAUSE_MS)
    } else {
        None
    }
}

/// What the helper writes of an outcome.
pub open spec fn message(outcome: Result<Seq<char>, Seq<char>>) -> Seq<char> {
    match outcome {
        Ok(text) => text,
        Err(text) => "失败："@ + text,
    }
}

/// What the helper writes of an outcome.
pub fn helper_message(outcome: Result<String, String>) -> (out: String)
    ensures
        out@ == message(said(outcome)),
{
    match outcome {
        Ok(text) => text,
        Err(text) => {
            let mut out = text_copy("失败：");
            out.append(text.as_str());
            out
        },
    }
}

/// The report of the helper says so where its action failed, and is what came of
/// it where it did not.
pub proof fn law_a_failure_is_reported(outcome: Result<Seq<char>, Seq<char>>)
    ensures
        match outcome {
            Ok(text) => message(outcome) == text,
            Err(text) => holds_run(message(outcome), "失败"@) && holds_run(
                message(outcome),
                text,
            ),
        },
{
    reveal_strlit("失败");
    reveal_strlit("失败：");
    if let Err(text) = outcome {
        let said = message(outcome);
        assert(said.subrange(0, 0int + "失败"@.len()) =~= "失败"@);
        assert(said.subrange(3, 3int + text.len()) =~= text);
    }
}

/// A process that is not there: the report of the helper says that ending it
/// failed.
pub proof fn law_what_is_not_there_is_reported(platform: Platform, pid: u32, me: u32)
    ensures
        kill_step(platform, pid, me, KillEvent::Opened { ok: false }) matches KillStep::Done {
            outcome,
        } && holds_run(message(outcome), "失败"@),
{
    law_what_is_not_there_is_not_ended(platform, pid, me);
    if let KillStep::Done { outcome } = kill_step(
        platform,
        pid,
        me,
        KillEvent::Opened { ok: false },
    ) {
        law_a_failure_is_reported(outcome);
    }
}

/// Without its flags nothing starts the helper.
pub proof fn law_only_its_flags_start_the_helper(args: Seq<String>)
    requires
        forall|i: int|
            0 <= i < args.len() ==> (#[trigger] args[i])@ != "--kill-pid"@ && args[i]@
                != "--release-port"@,
    ensures
        pid_in(args) is None,
        value_at(args, "--release-port"@) is None,
{
    lemma_no_flag(args, "--kill-pid"@);
    lemma_no_flag(args, "--release-port"@);
}

proof fn lemma_no_flag(args: Seq<String>, flag: Seq<char>)
    requires
        forall|i: int| 0 <= i < args.len() ==> (#[trigger] args[i])@ != flag,
    ensures
        value_at(args, flag) is None,
    decreases args.len(),
{
    if args.len() >= 2 {
        assert forall|i: int| 0 <= i < args.skip(1).len() implies (#[trigger] args.skip(1)[i])@
            != flag by {
            assert(args.skip(1)[i] == args[i + 1]);
        }
        assert(args[0]@ != flag);
        lemma_no_flag(args.skip(1), flag);
    }
}

/// The value of a flag stands right behind the first place where the flag does.
pub proof fn law_values_stand_behind_their_flag(args: Seq<String>, flag: Seq<char>)
    ensures
        match value_at(args, flag) {
            Some(i) => 1 <= i < args.len() && args[i - 1]@ == flag && forall|j: int|
                0 <= j < i - 1 ==> (#[trigger] args[j])@ != flag,
            None => forall|j: int| 0 <= j < args.len() - 1 ==> (#[trigger] args[j])@ != flag,
        },
    decreases args.len(),
{
    if args.len() >= 2 && args[0]@ != flag {
        let rest = args.skip(1);
        law_values_stand_behind_their_flag(rest, flag);
        match value_at(rest, flag) {
            Some(i) => {
                assert(rest[i - 1] == args[i]);
                assert forall|j: int| 0 <= j < i implies (#[trigger] args[j])@ != flag by {
                    if j > 0 {
                        assert(rest[j - 1] == args[j]);
                    }
                }
            },
            None => {
                assert forall|j: int| 0 <= j < args.len() - 1 implies (#[trigger] args[j])@
                    != flag by {
                    if j > 0 {
                        assert(rest[j - 1] == args[j]);
                    }
                }
            },
        }
    }
}

/// The process to be ended is the number behind the flag for it.
pub proof fn law_the_process_is_named_behind_its_flag(args: Seq<String>)
    ensures
        value_at(args, "--kill-pid"@) is None ==> pid_in(args) is None,
        value_at(args, "--kill-pid"@) matches Some(i) ==> pid_in(args) == number(
            args[i]@,
            10,
            4294967295,
        ),
{
}

/// A report is waited for during half a minute, and looked for every 150 ms.
pub proof fn law_how_long_a_report_is_waited_for()
    ensures
        REPORT_WAIT_MS == 30 * 1000,
        REPORT_PAUSE_MS == 150,
{
}

} // verus!
