//! The status bar, and which part of the window has the keyboard.

use crate::app::{App, AppModel};
use crate::config::profile::text_copy;
use crate::text::{decimal, push_decimal};
use vstd::prelude::*;

verus! {

/// How long a message stays in the status bar, in milliseconds.
pub const TOAST_LIFETIME: u64 = 2500;

/// Whether a message that has been shown for so long goes.
pub fn toast_expired(shown_ms: u64) -> (yes: bool)
    ensures
        yes == (shown_ms >= TOAST_LIFETIME),
        yes <==> shown_ms >= 2500,
{
    shown_ms >= TOAST_LIFETIME
}

/// What the next frame waits for, in milliseconds, where one is needed without
/// any input: a spinner turns fast, settling rates are slow, and a message is
/// looked at again before it goes. The shortest wins.
pub fn next_frame(connecting: bool, settling: bool, message: bool) -> (out: Option<u64>)
    ensures
        out == (if connecting {
            Some(40u64)
        } else if message {
            Some(100u64)
        } else if settling {
            Some(200u64)
        } else {
            None
        }),
{
    if connecting {
        Some(40)
    } else if message {
        Some(100)
    } else if settling {
        Some(200)
    } else {
        None
    }
}

/// What connects a pane to its session.
#[derive(Clone, Copy, Debug, PartialEq, Eq, Structural)]
pub enum Channel {
    /// A connection to a host.
    Ssh,
    /// The pseudo console of Windows.
    ConPty,
    /// A pseudo terminal.
    Pty,
}

/// What connects a pane to its session: a connection to a host, or what the
/// platform has.
pub fn channel(remote: bool, windows: bool) -> (out: Channel)
    ensures
        out == (if remote {
            Channel::Ssh
        } else if windows {
            Channel::ConPty
        } else {
            Channel::Pty
        }),
{
    if remote {
        Channel::Ssh
    } else if windows {
        Channel::ConPty
    } else {
        Channel::Pty
    }
}

impl Channel {
    /// Its name in the status bar.
    pub open spec fn name(self) -> Seq<char> {
        match self {
            Channel::Ssh => "SSH"@,
            Channel::ConPty => "ConPTY"@,
            Channel::Pty => "PTY"@,
        }
    }
}

/// Whether the session runs, or the code it ended with.
pub fn run_state(exit_code: Option<u32>) -> (out: String)
    ensures
        out@ == (match exit_code {
            Some(code) => "已退出 "@ + decimal(code as nat),
            None => "● 运行中"@,
        }),
{
    match exit_code {
        Some(code) => {
            let mut out = text_copy("已退出 ");
            push_decimal(&mut out, code as u64);
            out
        },
        None => text_copy("● 运行中"),
    }
}

/// The size of the screen, what connects it, and which pane of the tab it is.
pub fn pane_summary(cols: u16, rows: u16, channel: Channel, focused: usize, panes: usize) -> (out:
    String)
    requires
        focused < panes,
    ensures
        out@ == decimal(cols as nat) + "×"@ + decimal(rows as nat) + " · "@ + channel.name()
            + " · "@ + decimal((focused + 1) as nat) + "/"@ + decimal(panes as nat),
{
    let mut out = String::new();
    push_decimal(&mut out, cols as u64);
    out.append("×");
    push_decimal(&mut out, rows as u64);
    out.append(" · ");
    match channel {
        Channel::Ssh => out.append("SSH"),
        Channel::ConPty => out.append("ConPTY"),
        Channel::Pty => out.append("PTY"),
    }
    out.append(" · ");
    push_decimal(&mut out, focused as u64 + 1);
    out.append("/");
    push_decimal(&mut out, panes as u64);
    assert(out@ =~= decimal(cols as nat) + "×"@ + decimal(rows as nat) + " · "@ + channel.name()
        + " · "@ + decimal((focused + 1) as nat) + "/"@ + decimal(panes as nat));
    out
}

impl AppModel {
    /// Whether the keyboard reaches the focused pane: no window, no search and
    /// no popup is over it.
    pub open spec fn keyboard_free(self, popup_open: bool) -> bool {
        &&& !self.shortcuts_blocked()
        &&& !self.search.open
        &&& !self.windows.toolbox
        &&& !popup_open
    }
}

impl App {
    /// Whether the keyboard reaches the focused pane.
    pub fn keyboard_enabled(&self, popup_open: bool) -> (yes: bool)
        ensures
            yes == self@.keyboard_free(popup_open),
    {
        !self.shortcuts_are_blocked() && !self.search.open && !self.windows.toolbox && !popup_open
    }
}

/// A window that has the keyboard keeps the shortcuts and the panes from it.
pub proof fn law_a_window_keeps_the_keyboard(app: AppModel, popup_open: bool)
    ensures
        app.shortcuts_blocked() ==> !app.keyboard_free(popup_open),
{
}

/// The names of what connects a pane.
pub proof fn law_how_channels_are_called()
    ensures
        Channel::Ssh.name() == seq!['S', 'S', 'H'],
        Channel::ConPty.name() == seq!['C', 'o', 'n', 'P', 'T', 'Y'],
        Channel::Pty.name() == seq!['P', 'T', 'Y'],
{
    reveal_strlit("SSH");
    reveal_strlit("ConPTY");
    reveal_strlit("PTY");
    assert(Channel::Ssh.name() =~= seq!['S', 'S', 'H']);
    assert(Channel::ConPty.name() =~= seq!['C', 'o', 'n', 'P', 'T', 'Y']);
    assert(Channel::Pty.name() =~= seq!['P', 'T', 'Y']);
}

/// The keyboard reaches the pane exactly where no window, no form, no search, no
/// toolbox and no popup is open.
pub proof fn law_what_keeps_the_keyboard(app: AppModel, popup_open: bool)
    ensures
        app.keyboard_free(popup_open) <==> (!app.windows.settings && !app.form.open
            && !app.windows.groups && !app.windows.help && !app.windows.update
            && !app.windows.login && !app.windows.files && !app.search.open
            && !app.windows.toolbox && !popup_open),
{
}

/// A message stays for two seconds and a half.
pub proof fn law_how_long_messages_stay()
    ensures
        TOAST_LIFETIME == 2500,
{
}

} // verus!
