//! What the tab strip, the status bar and the exit dialog ask of the open tabs.

use crate::session::SessionStatus;
use crate::workspace::{
    pane_models, tab_models, Pane, PaneModel, Tab, TabModel, Workspace, WorkspaceModel,
};
use vstd::prelude::*;

verus! {

impl WorkspaceModel {
    /// Whether some pane has the property.
    pub open spec fn any_pane(self, p: spec_fn(PaneModel) -> bool) -> bool {
        exists|i: int, a: int|
            0 <= i < self.tabs.len() && 0 <= a < self.tabs[i].panes.len() && p(
                #[trigger] self.tabs[i].panes[a],
            )
    }

    /// The workspace once the active tab was looked at: its output and its bells
    /// are seen.
    pub open spec fn seen(self) -> WorkspaceModel {
        if self.active < self.tabs.len() {
            let t = self.tabs[self.active as int];
            WorkspaceModel {
                tabs: self.tabs.update(
                    self.active as int,
                    TabModel {
                        panes: t.panes.map_values(|p: PaneModel| PaneModel { bell: false, ..p }),
                        seen_output: t.output() as u64,
                        ..t
                    },
                ),
                ..self
            }
        } else {
            self
        }
    }
}

/// A pane with what was last heard of its session.
pub open spec fn heard(p: PaneModel, link: SessionStatus, received: u64, bell: bool) -> PaneModel {
    PaneModel { link, received, bell, ..p }
}

impl Workspace {
    /// Whether any session still runs or is about to, which is what the exit
    /// confirmation protects.
    pub fn has_live_sessions(&self) -> (yes: bool)
        ensures
            yes == self@.any_pane(|p: PaneModel| p.busy()),
    {
        let ghost busy = |p: PaneModel| p.busy();
        let n: usize = self.tabs.len();
        let mut i: usize = 0;
        while i < n
            invariant
                i <= n,
                n == self.tabs@.len(),
                busy == (|p: PaneModel| p.busy()),
                forall|k: int, a: int|
                    0 <= k < i && 0 <= a < self@.tabs[k].panes.len() ==> !(
                    #[trigger] self@.tabs[k].panes[a]).busy(),
            decreases n - i,
        {
            let tab: &Tab = &self.tabs[i];
            assert(self@.tabs[i as int] == tab@);
            let m: usize = tab.panes.len();
            let mut a: usize = 0;
            while a < m
                invariant
                    a <= m,
                    i < n,
                    n == self.tabs@.len(),
                    tab@ == self@.tabs[i as int],
                    m == tab.panes@.len(),
                    busy == (|p: PaneModel| p.busy()),
                    forall|b: int| 0 <= b < a ==> !(#[trigger] tab@.panes[b]).busy(),
                decreases m - a,
            {
                assert(tab@.panes[a as int] == tab.panes@[a as int]@);
                if tab.panes[a].pending || tab.panes[a].link == SessionStatus::Live {
                    assert(busy(self@.tabs[i as int].panes[a as int]));
                    return true;
                }
                a += 1;
            }
            i += 1;
        }
        assert(!self@.any_pane(busy)) by {
            assert forall|k: int, a: int|
                0 <= k < self@.tabs.len() && 0 <= a < self@.tabs[k].panes.len() implies !busy(
                #[trigger] self@.tabs[k].panes[a],
            ) by {}
        }
        false
    }

    /// Whether any pane still waits for its connection.
    pub fn connecting(&self) -> (yes: bool)
        ensures
            yes == self@.any_pane(|p: PaneModel| p.pending),
    {
        let ghost pending = |p: PaneModel| p.pending;
        let n: usize = self.tabs.len();
        let mut i: usize = 0;
        while i < n
            invariant
                i <= n,
                n == self.tabs@.len(),
                pending == (|p: PaneModel| p.pending),
                forall|k: int, a: int|
                    0 <= k < i && 0 <= a < self@.tabs[k].panes.len() ==> !(
                    #[trigger] self@.tabs[k].panes[a]).pending,
            decreases n - i,
        {
            let tab: &Tab = &self.tabs[i];
            assert(self@.tabs[i as int] == tab@);
            let m: usize = tab.panes.len();
            let mut a: usize = 0;
            while a < m
                invariant
                    a <= m,
                    i < n,
                    n == self.tabs@.len(),
                    tab@ == self@.tabs[i as int],
                    m == tab.panes@.len(),
                    pending == (|p: PaneModel| p.pending),
                    forall|b: int| 0 <= b < a ==> !(#[trigger] tab@.panes[b]).pending,
                decreases m - a,
            {
                assert(tab@.panes[a as int] == tab.panes@[a as int]@);
                if tab.panes[a].pending {
                    assert(pending(self@.tabs[i as int].panes[a as int]));
                    return true;
                }
                a += 1;
            }
            i += 1;
        }
        assert(!self@.any_pane(pending)) by {
            assert forall|k: int, a: int|
                0 <= k < self@.tabs.len() && 0 <= a < self@.tabs[k].panes.len() implies !pending(
                #[trigger] self@.tabs[k].panes[a],
            ) by {}
        }
        false
    }

    /// Takes over that the active tab was looked at, which clears its new-output
    /// mark and its bells.
    pub fn mark_active_seen(&mut self)
        requires
            old(self)@.well_formed(),
            old(self)@.active < old(self)@.tabs.len() ==> old(self)@.tabs[old(
                self,
            )@.active as int].output() <= u64::MAX,
        ensures
            final(self)@ == old(self)@.seen(),
            final(self)@.well_formed(),
    {
        let ghost before = self@;
        let active: usize = self.active;
        if active < self.tabs.len() {
            let ghost t = before.tabs[active as int];
            let ghost list = self.tabs@;
            assert(t == self.tabs@[active as int]@);
            let output: u64 = self.tabs[active].output();
            let tab: &mut Tab = &mut self.tabs[active];
            tab.seen_output = output;
            let ghost panes = tab.panes@;
            let mut silent: Vec<Pane> = Vec::new();
            let mut sounding: Vec<Pane> = Vec::new();
            sounding.append(&mut tab.panes);
            for pane in it: sounding
                invariant
                    it.seq() == panes,
                    silent@.len() == it.index(),
                    forall|k: int|
                        0 <= k < silent@.len() ==> (#[trigger] silent@[k])@ == (PaneModel {
                            bell: false,
                            ..panes[k]@
                        }),
            {
                let mut pane = pane;
                pane.bell = false;
                silent.push(pane);
            }
            tab.panes = silent;
            proof {
                assert(pane_models(tab.panes@) =~= t.panes.map_values(
                    |p: PaneModel| PaneModel { bell: false, ..p },
                ));
                assert(tab@ =~= before.seen().tabs[active as int]);
            }
            proof {
                assert(tab_models(self.tabs@) =~= before.seen().tabs);
                lemma_seen(before);
            }
        }
        assert(self@ =~= before.seen());
    }

    /// Takes over what was last heard of a pane's session.
    pub fn hear(
        &mut self,
        tab_id: u64,
        pane_id: u64,
        link: SessionStatus,
        received: u64,
        bell: bool,
    )
        requires
            old(self)@.well_formed(),
        ensures
            final(self)@ == (match old(self)@.place(tab_id, pane_id) {
                Some((i, a)) => {
                    let t = old(self)@.tabs[i];
                    old(self)@.with_tab_at(
                        i,
                        TabModel {
                            panes: t.panes.update(a, heard(t.panes[a], link, received, bell)),
                            ..t
                        },
                    )
                },
                None => old(self)@,
            }),
            final(self)@.well_formed(),
    {
        let ghost before = self@;
        if let Some((i, a)) = self.locate(tab_id, pane_id) {
            let kind = self.tabs[i].panes[a].kind.clone();
            let id: u64 = self.tabs[i].panes[a].id;
            let pending = self.tabs[i].panes[a].pending;
            let remote = self.tabs[i].panes[a].remote;
            let focused: usize = self.tabs[i].focused;
            let pane = Pane { id, kind, link, pending, remote, received, bell };
            proof {
                assert(before.tabs[i as int].well_formed());
                assert(before.tabs[i as int].panes[a as int]
                    == self.tabs@[i as int].panes@[a as int]@);
                assert(before.tabs[i as int].panes[a as int].id <= before.next_id);
            }
            self.put_pane(i, a, pane, focused);
        }
    }
}

proof fn lemma_seen(w: WorkspaceModel)
    requires
        w.well_formed(),
        w.active < w.tabs.len(),
    ensures
        w.seen().well_formed(),
{
    let i = w.active as int;
    let t = w.tabs[i];
    assert(t.well_formed());
    crate::workspace::panes::lemma_exchange(
        w,
        i,
        w.seen().tabs[i],
        Seq::new(t.panes.len(), |b: int| b),
        w.next_id,
    );
}

/// Looking at a tab clears its mark and its bells, and changes nothing else that
/// its sessions have said.
pub proof fn law_looking_clears_the_mark(w: WorkspaceModel)
    requires
        w.well_formed(),
        w.active < w.tabs.len(),
        w.tabs[w.active as int].output() <= u64::MAX,
    ensures
        !w.seen().tabs[w.active as int].updated(false),
        w.seen().tabs[w.active as int].output() == w.seen().tabs[w.active as int].seen_output,
        w.seen().tabs[w.active as int].output() == w.tabs[w.active as int].output(),
        forall|a: int|
            0 <= a < w.tabs[w.active as int].panes.len() ==> (
            #[trigger] w.seen().tabs[w.active as int].panes[a]) == (PaneModel {
                bell: false,
                ..w.tabs[w.active as int].panes[a]
            }),
{
    let t = w.tabs[w.active as int];
    let s = w.seen().tabs[w.active as int];
    lemma_received_same(t, s, t.panes.len() as int);
    assert(t.output() >= 0) by {
        crate::workspace::lemma_received_grows(t, 0, t.panes.len() as int);
    }
}

/// Only output that arrives after a tab was looked at brings its mark back: what
/// is heard of a pane marks the tab, once it is in the background, exactly where
/// the pane has received more than it had then.
pub proof fn law_later_output_brings_the_mark(
    w: WorkspaceModel,
    a: int,
    link: SessionStatus,
    received: u64,
    bell: bool,
)
    requires
        w.well_formed(),
        w.active < w.tabs.len(),
        w.tabs[w.active as int].output() <= u64::MAX,
        0 <= a < w.tabs[w.active as int].panes.len(),
    ensures
        ({
            let t = w.tabs[w.active as int];
            let s = w.seen().tabs[w.active as int];
            let later = TabModel {
                panes: s.panes.update(a, heard(s.panes[a], link, received, bell)),
                ..s
            };
            &&& later.updated(false) == (received > t.panes[a].received)
            &&& !later.updated(true)
        }),
{
    let s = w.seen().tabs[w.active as int];
    let later = TabModel {
        panes: s.panes.update(a, heard(s.panes[a], link, received, bell)),
        ..s
    };
    law_looking_clears_the_mark(w);
    assert(s.panes[a].received == w.tabs[w.active as int].panes[a].received);
    lemma_received_heard(s, later, a, s.panes.len() as int);
}

proof fn lemma_received_heard(t: TabModel, s: TabModel, a: int, n: int)
    requires
        0 <= n <= t.panes.len(),
        t.panes.len() == s.panes.len(),
        0 <= a < t.panes.len(),
        forall|b: int|
            0 <= b < t.panes.len() && b != a ==> (#[trigger] s.panes[b]).received
                == t.panes[b].received,
    ensures
        s.received(n) - t.received(n) == (if a < n {
            s.panes[a].received - t.panes[a].received
        } else {
            0
        }),
    decreases n,
{
    if n > 0 {
        lemma_received_heard(t, s, a, n - 1);
        if n - 1 != a {
            assert(s.panes[n - 1].received == t.panes[n - 1].received);
        }
    }
}

proof fn lemma_received_same(t: TabModel, s: TabModel, n: int)
    requires
        0 <= n <= t.panes.len(),
        t.panes.len() == s.panes.len(),
        forall|a: int|
            0 <= a < t.panes.len() ==> (#[trigger] s.panes[a]).received == t.panes[a].received,
    ensures
        t.received(n) == s.received(n),
    decreases n,
{
    if n > 0 {
        lemma_received_same(t, s, n - 1);
        assert(s.panes[n - 1].received == t.panes[n - 1].received);
    }
}

/// Looking at the tab in front touches no other tab, and neither the order nor the numbers.
pub proof fn law_looking_touches_one_tab(w: WorkspaceModel, i: int)
    ensures
        w.seen().tabs.len() == w.tabs.len(),
        w.seen().active == w.active,
        w.seen().next_id == w.next_id,
        0 <= i < w.tabs.len() && i != w.active ==> w.seen().tabs[i] == w.tabs[i],
        w.active < w.tabs.len() ==> {
            let t = w.tabs[w.active as int];
            let s = w.seen().tabs[w.active as int];
            s.id == t.id && s.focused == t.focused && s.layout == t.layout && s.panes.len()
                == t.panes.len()
        },
{
}

/// What is heard of a session is kept as it was heard, and nothing else of the pane
/// changes.
pub proof fn law_what_is_heard_is_kept(p: PaneModel, link: SessionStatus, received: u64, bell: bool)
    ensures
        heard(p, link, received, bell).link == link,
        heard(p, link, received, bell).received == received,
        heard(p, link, received, bell).bell == bell,
        heard(p, link, received, bell).id == p.id,
        heard(p, link, received, bell).kind == p.kind,
        heard(p, link, received, bell).pending == p.pending,
        heard(p, link, received, bell).remote == p.remote,
{
}

} // verus!
