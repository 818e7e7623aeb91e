//! The one way out: closing now, or asking first while sessions are still live.

use crate::app::{App, AppModel};
use crate::workspace::PaneModel;
use vstd::prelude::*;

verus! {

/// What becomes of a close that the platform asks for.
#[derive(Clone, Copy, Debug, PartialEq, Eq, Structural)]
pub enum CloseAnswer {
    /// It goes ahead on its own.
    Ignore,
    /// It is called off, and the user is asked.
    Cancel,
    /// The window is closed.
    Close,
}

impl AppModel {
    /// Whether the user has to be asked before the window closes: a session is
    /// still live, the setting wants it, and nobody has agreed yet.
    pub open spec fn must_ask(self) -> bool {
        &&& !self.exit_confirmed
        &&& self.settings.confirm_on_exit
        &&& self.workspace.any_pane(|p: PaneModel| p.busy())
    }
}

impl App {
    /// Asks for the window to be closed. Says whether it closes now; else the
    /// user is asked.
    pub fn request_exit(&mut self) -> (close: bool)
        ensures
            close == !old(self)@.must_ask(),
            final(self)@ == (AppModel {
                confirm_exit: old(self)@.confirm_exit || !close,
                ..old(self)@
            }),
    {
        let close = self.exit_confirmed || !self.settings.confirm_on_exit
            || !self.workspace.has_live_sessions();
        if !close {
            self.confirm_exit = true;
        }
        assert(self@ =~= AppModel {
            confirm_exit: old(self)@.confirm_exit || !close,
            ..old(self)@
        });
        close
    }

    /// Answers a close that the platform asks for. It is held back once while
    /// sessions are live, and the dialog decides the rest.
    pub fn answer_close(&mut self) -> (answer: CloseAnswer)
        ensures
            answer == (if old(self)@.exit_confirmed {
                CloseAnswer::Ignore
            } else if old(self)@.must_ask() {
                CloseAnswer::Cancel
            } else {
                CloseAnswer::Close
            }),
            final(self)@ == (AppModel {
                confirm_exit: old(self)@.confirm_exit || answer == CloseAnswer::Cancel,
                ..old(self)@
            }),
    {
        if self.exit_confirmed {
            assert(self@ =~= AppModel { confirm_exit: old(self)@.confirm_exit, ..old(self)@ });
            return CloseAnswer::Ignore;
        }
        if self.request_exit() {
            CloseAnswer::Close
        } else {
            CloseAnswer::Cancel
        }
    }

    /// Takes over that the user agreed to close. The window closes then.
    pub fn confirm_close(&mut self)
        ensures
            final(self)@ == (AppModel {
                exit_confirmed: true,
                confirm_exit: false,
                ..old(self)@
            }),
    {
        self.exit_confirmed = true;
        self.confirm_exit = false;
        assert(self@ =~= AppModel { exit_confirmed: true, confirm_exit: false, ..old(self)@ });
    }

    /// Takes over that the user does not want to close.
    pub fn cancel_close(&mut self)
        ensures
            final(self)@ == (AppModel { confirm_exit: false, ..old(self)@ }),
    {
        self.confirm_exit = false;
        assert(self@ =~= AppModel { confirm_exit: false, ..old(self)@ });
    }
}

/// Where nothing is connected, and where the user has agreed, the window closes
/// without a question.
pub proof fn law_nothing_live_means_no_question(app: AppModel)
    ensures
        app.exit_confirmed ==> !app.must_ask(),
        !app.settings.confirm_on_exit ==> !app.must_ask(),
        (forall|i: int, a: int|
            0 <= i < app.workspace.tabs.len() && 0 <= a < app.workspace.tabs[i].panes.len() ==> !(
            #[trigger] app.workspace.tabs[i].panes[a]).busy()) ==> !app.must_ask(),
{
}

/// While a session is live, and the setting wants it, the window does not close
/// before the user has agreed.
pub proof fn law_live_sessions_are_asked_about(app: AppModel, i: int, a: int)
    requires
        0 <= i < app.workspace.tabs.len(),
        0 <= a < app.workspace.tabs[i].panes.len(),
        app.workspace.tabs[i].panes[a].busy(),
        app.settings.confirm_on_exit,
        !app.exit_confirmed,
    ensures
        app.must_ask(),
{
    let busy = |p: PaneModel| p.busy();
    assert(busy(app.workspace.tabs[i].panes[a]));
}

} // verus!
