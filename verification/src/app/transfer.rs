//! Moving files: when the file window opens, when a transfer of the terminal may
//! start, and what dropping files would do.

use crate::config::profile::text_copy;
use crate::text::{decimal, push_decimal};
use vstd::prelude::*;

verus! {

/// What is known of the file window when something asks for it.
#[derive(Clone, Copy, Debug, PartialEq, Eq, Structural)]
pub struct FilesState {
    /// There is a file window.
    pub present: bool,
    /// It belongs to the connection of the focused pane.
    pub same_connection: bool,
    /// One of its transfers runs.
    pub transferring: bool,
    /// It carries a transfer of the terminal.
    pub busy: bool,
}

/// What to do about the file window.
#[derive(Clone, Copy, Debug, PartialEq, Eq, Structural)]
pub enum FilesStep {
    /// The focused pane runs over no connection to a host.
    NoConnection,
    /// The window serves another connection that is still in use.
    InUse,
    /// A transfer of the terminal runs already.
    Busy,
    /// The window is there.
    Keep,
    /// A window for this connection is needed first.
    Create,
}

/// What to do when the file window is asked for. One that transfers for another
/// connection is not taken away from it.
pub open spec fn files_step(connected: bool, files: FilesState) -> FilesStep {
    if !connected {
        FilesStep::NoConnection
    } else if files.present && files.same_connection {
        FilesStep::Keep
    } else if files.present && files.transferring {
        FilesStep::InUse
    } else {
        FilesStep::Create
    }
}

/// What to do when a transfer of the terminal is to start.
pub open spec fn terminal_step(files: FilesState) -> FilesStep {
    if files.present && !files.same_connection && files.transferring {
        FilesStep::InUse
    } else if files.present && files.busy {
        FilesStep::Busy
    } else if files.present && files.same_connection {
        FilesStep::Keep
    } else {
        FilesStep::Create
    }
}

/// What to do when the file window is asked for.
pub fn ensure_files(connected: bool, files: FilesState) -> (out: FilesStep)
    ensures
        out == files_step(connected, files),
{
    if !connected {
        return FilesStep::NoConnection;
    }
    if !files.present || !files.same_connection {
        if files.present && files.transferring {
            return FilesStep::InUse;
        }
        return FilesStep::Create;
    }
    FilesStep::Keep
}

/// What to do when a transfer of the terminal is to start.
pub fn begin_terminal_zmodem(files: FilesState) -> (out: FilesStep)
    ensures
        out == terminal_step(files),
{
    if files.present && !files.same_connection && files.transferring {
        return FilesStep::InUse;
    }
    if files.present && files.busy {
        return FilesStep::Busy;
    }
    if !files.present || !files.same_connection {
        return FilesStep::Create;
    }
    FilesStep::Keep
}

/// A file window never leaves a connection for which it still transfers.
pub proof fn law_transfers_keep_their_window(connected: bool, files: FilesState)
    requires
        files.present,
        !files.same_connection,
        files.transferring,
    ensures
        files_step(connected, files) != FilesStep::Create,
        terminal_step(files) != FilesStep::Create,
{
}

/// Why the file window does not open. Nothing where it does.
pub fn files_refusal(step: FilesStep) -> (out: Option<&'static str>)
    ensures
        match out {
            Some(text) => match step {
                FilesStep::NoConnection => text@ == "请先连接内置 SSH 会话"@,
                FilesStep::InUse => text@
                    == "文件窗口还有传输任务，请完成或暂停后切换连接"@,
                _ => false,
            },
            None => step != FilesStep::NoConnection && step != FilesStep::InUse,
        },
{
    match step {
        FilesStep::NoConnection => Some("请先连接内置 SSH 会话"),
        FilesStep::InUse => Some(
            "文件窗口还有传输任务，请完成或暂停后切换连接",
        ),
        _ => None,
    }
}

/// Why a transfer of the terminal does not start. Nothing where it does.
pub fn terminal_refusal(step: FilesStep) -> (out: Option<&'static str>)
    ensures
        match out {
            Some(text) => match step {
                FilesStep::InUse => text@
                    == "文件窗口还有其他连接的传输任务，请完成后再试"@,
                FilesStep::Busy => text@
                    == "文件窗口还有 ZMODEM 传输任务，请完成或取消后再试"@,
                _ => false,
            },
            None => step != FilesStep::InUse && step != FilesStep::Busy,
        },
{
    match step {
        FilesStep::InUse => Some(
            "文件窗口还有其他连接的传输任务，请完成后再试",
        ),
        FilesStep::Busy => Some(
            "文件窗口还有 ZMODEM 传输任务，请完成或取消后再试",
        ),
        _ => None,
    }
}

/// What dropping files would do.
pub fn drop_text(count: usize, directory: &str) -> (out: String)
    ensures
        out@ == (if directory@.len() == 0 {
            "松开上传 "@ + decimal(count as nat) + " 个文件（先连接 SSH 会话）"@
        } else {
            "松开上传 "@ + decimal(count as nat) + " 个文件到 "@ + directory@
        }),
{
    let mut out = text_copy("松开上传 ");
    push_decimal(&mut out, count as u64);
    if directory.is_empty() {
        out.append(" 个文件（先连接 SSH 会话）");
    } else {
        out.append(" 个文件到 ");
        out.append(directory);
    }
    out
}

/// The bytes that make the other end give up a transfer.
pub fn abort_transfer() -> (out: Vec<u8>)
    ensures
        out@ == Seq::new(8, |i: int| 0x18u8),
{
    let mut out: Vec<u8> = Vec::new();
    let mut i: usize = 0;
    while i < 8
        invariant
            i <= 8,
            out@ == Seq::new(i as nat, |k: int| 0x18u8),
        decreases 8 - i,
    {
        out.push(0x18);
        i += 1;
        assert(out@ =~= Seq::new(i as nat, |k: int| 0x18u8));
    }
    out
}

/// What a transfer that the other end offers needs.
#[derive(Clone, Copy, Debug, PartialEq, Eq, Structural)]
pub enum OfferStep {
    /// Nothing: none is offered.
    Nothing,
    /// A file to send.
    PickFile,
    /// A directory to put files into.
    PickFolder,
}

/// What a transfer that the other end of a connection offers needs. Choosing is
/// the confirmation: who types the command has said what is wanted.
pub fn offer_step(connected: bool, upload: Option<bool>) -> (out: OfferStep)
    ensures
        out == (match (connected, upload) {
            (true, Some(true)) => OfferStep::PickFile,
            (true, Some(false)) => OfferStep::PickFolder,
            _ => OfferStep::Nothing,
        }),
{
    match (connected, upload) {
        (true, Some(true)) => OfferStep::PickFile,
        (true, Some(false)) => OfferStep::PickFolder,
        _ => OfferStep::Nothing,
    }
}

/// Files are shown where a session is connected. A window of the same connection
/// is kept, one of another that transfers is not taken away, and in all other
/// cases a new one is made.
pub proof fn law_whose_files_are_shown(connected: bool, files: FilesState)
    ensures
        files_step(connected, files) == FilesStep::NoConnection <==> !connected,
        files_step(connected, files) == FilesStep::Keep <==> connected && files.present
            && files.same_connection,
        files_step(connected, files) == FilesStep::InUse <==> connected && files.present
            && !files.same_connection && files.transferring,
        files_step(connected, files) == FilesStep::Create <==> connected && (!files.present
            || !files.same_connection && !files.transferring),
{
}

/// For a transfer that a terminal asks for, a window that transfers for another
/// connection is in use, and one that is busy has to end first.
pub proof fn law_where_a_terminal_transfers(files: FilesState)
    ensures
        !files.present ==> terminal_step(files) == FilesStep::Create,
        terminal_step(files) == FilesStep::InUse <==> files.present && !files.same_connection
            && files.transferring,
        terminal_step(files) == FilesStep::Busy <==> files.present && files.busy && (
        files.same_connection || !files.transferring),
        terminal_step(files) == FilesStep::Keep <==> files.present && files.same_connection
            && !files.busy,
        terminal_step(files) != FilesStep::NoConnection,
{
}

} // verus!
