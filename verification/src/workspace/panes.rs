//! What happens to single panes: they are found, replaced, split and closed,
//! and the keyboard moves between them.

use crate::config::profile::{RemoteModel, RemoteProfile};
use crate::layout::{law_remove_keeps_layouts_valid, law_split_keeps_layouts_valid, Axis, Layout};
use crate::session::{address, address_of, KindModel, SessionKind, SessionStatus};
use crate::workspace::{
    detached_pane, live_pane, pane_index, pane_models, tab_index, tab_models, Pane, PaneModel, Tab,
    TabModel, Workspace, WorkspaceModel, MAX_PANES,
};
use vstd::prelude::*;

verus! {

impl WorkspaceModel {
    /// The workspace with another tab in a place.
    pub open spec fn with_tab_at(self, i: int, tab: TabModel) -> WorkspaceModel {
        WorkspaceModel { tabs: self.tabs.update(i, tab), ..self }
    }

    /// The workspace with another pane in a place, which has the keyboard of its
    /// tab then.
    pub open spec fn with_pane(self, i: int, a: int, pane: PaneModel) -> WorkspaceModel {
        let t = self.tabs[i];
        WorkspaceModel {
            next_id: if pane.id > self.next_id {
                pane.id
            } else {
                self.next_id
            },
            ..self.with_tab_at(
                i,
                TabModel { panes: t.panes.update(a, pane), focused: a as usize, ..t },
            )
        }
    }

    /// The workspace with another tab active.
    pub open spec fn activated(self, i: int) -> WorkspaceModel {
        WorkspaceModel { active: i as usize, ..self }
    }

    /// The workspace once a session has started in a pane: the pane gets a new
    /// number, and it and its tab come to the front. A pane that is gone leaves
    /// the number behind.
    pub open spec fn started(self, tab_id: u64, pane_id: u64, kind: KindModel) -> WorkspaceModel {
        let id = (self.next_id + 1) as u64;
        match self.place(tab_id, pane_id) {
            Some((i, a)) => self.with_pane(i, a, live_pane(id, kind, false)).activated(i),
            None => WorkspaceModel { next_id: id, ..self },
        }
    }

    /// The workspace once a session failed to start in a pane: nothing runs in
    /// it, and it and its tab come to the front.
    pub open spec fn failed(self, tab_id: u64, pane_id: u64, kind: KindModel) -> WorkspaceModel {
        match self.place(tab_id, pane_id) {
            Some((i, a)) => self.with_pane(i, a, detached_pane(pane_id, kind)).activated(i),
            None => self,
        }
    }

    /// The workspace once a connection to a host was made for a pane: the pane
    /// gets a new number and the keyboard of its tab. Where the pane is gone, or
    /// none was meant, a new tab is opened.
    pub open spec fn connected(self, at: Option<(u64, u64)>, kind: KindModel) -> WorkspaceModel {
        let pane = live_pane((self.next_id + 1) as u64, kind, true);
        match at {
            Some((tab_id, pane_id)) => match self.place(tab_id, pane_id) {
                Some((i, a)) => self.with_pane(i, a, pane),
                None => self.with_tab(pane),
            },
            None => self.with_tab(pane),
        }
    }

    /// The workspace once nothing runs in a pane any more. The keyboard stays
    /// where it is.
    pub open spec fn dropped(self, tab_id: u64, pane_id: u64) -> WorkspaceModel {
        match self.place(tab_id, pane_id) {
            Some((i, a)) => {
                let t = self.tabs[i];
                self.with_tab_at(
                    i,
                    TabModel {
                        panes: t.panes.update(a, detached_pane(pane_id, t.panes[a].kind)),
                        ..t
                    },
                )
            },
            None => self,
        }
    }

    /// Whether the active tab can take one more pane.
    pub open spec fn can_split(self) -> bool {
        self.active < self.tabs.len() && self.tabs[self.active as int].panes.len() < MAX_PANES
    }

    /// The workspace with the focused pane split, and the keyboard in the new
    /// one.
    pub open spec fn after_split(self, axis: Axis, pane: PaneModel) -> WorkspaceModel {
        let t = self.tabs[self.active as int];
        let n = t.panes.len() as usize;
        WorkspaceModel {
            next_id: pane.id,
            ..self.with_tab_at(
                self.active as int,
                TabModel {
                    panes: t.panes.push(pane),
                    focused: n,
                    layout: t.layout.after_split(t.focused, n, axis),
                    ..t
                },
            )
        }
    }

    /// The workspace without the focused pane. The last pane takes its tab along.
    pub open spec fn without_pane(self) -> WorkspaceModel {
        let t = self.tabs[self.active as int];
        if self.active >= self.tabs.len() {
            self
        } else if t.panes.len() > 1 {
            self.with_tab_at(
                self.active as int,
                TabModel {
                    panes: t.panes.remove(t.focused as int),
                    focused: crate::workspace::last_or(t.focused as int, t.panes.len() - 1),
                    layout: t.layout.after_remove(t.focused)->0,
                    ..t
                },
            )
        } else {
            self.without_tab(self.active as int)
        }
    }

    /// The workspace with the next tab active; after the last comes the first.
    pub open spec fn next_tab(self) -> WorkspaceModel {
        if self.tabs.len() == 0 {
            self
        } else {
            self.activated((self.active + 1) % (self.tabs.len() as int))
        }
    }

    /// The workspace with the keyboard in the next pane of the active tab; after
    /// the last comes the first.
    pub open spec fn next_pane(self) -> WorkspaceModel {
        if self.active < self.tabs.len() {
            let t = self.tabs[self.active as int];
            self.with_tab_at(
                self.active as int,
                TabModel { focused: ((t.focused + 1) % (t.panes.len() as int)) as usize, ..t },
            )
        } else {
            self
        }
    }

    /// The workspace with the keyboard in a pane of the active tab.
    pub open spec fn focused(self, a: usize) -> WorkspaceModel {
        if self.active < self.tabs.len() {
            self.with_tab_at(
                self.active as int,
                TabModel { focused: a, ..self.tabs[self.active as int] },
            )
        } else {
            self
        }
    }
}

proof fn lemma_tab_index(tabs: Seq<TabModel>, id: u64, k: int)
    requires
        0 <= k <= tabs.len(),
        forall|j: int| 0 <= j < k ==> (#[trigger] tabs[j]).id != id,
        k < tabs.len() ==> tabs[k].id == id,
    ensures
        tab_index(tabs, id) == k,
    decreases tabs.len(),
{
    if tabs.len() > 0 && tabs[0].id != id {
        let rest = tabs.skip(1);
        assert forall|j: int| 0 <= j < k - 1 implies (#[trigger] rest[j]).id != id by {
            assert(rest[j] == tabs[j + 1]);
        }
        if k < tabs.len() {
            assert(rest[k - 1] == tabs[k]);
        }
        lemma_tab_index(rest, id, k - 1);
    } else if tabs.len() > 0 && k > 0 {
        assert(tabs[0].id != id);
    }
}

proof fn lemma_pane_index(panes: Seq<PaneModel>, id: u64, k: int)
    requires
        0 <= k <= panes.len(),
        forall|j: int| 0 <= j < k ==> (#[trigger] panes[j]).id != id,
        k < panes.len() ==> panes[k].id == id,
    ensures
        pane_index(panes, id) == k,
    decreases panes.len(),
{
    if panes.len() > 0 && panes[0].id != id {
        let rest = panes.skip(1);
        assert forall|j: int| 0 <= j < k - 1 implies (#[trigger] rest[j]).id != id by {
            assert(rest[j] == panes[j + 1]);
        }
        if k < panes.len() {
            assert(rest[k - 1] == panes[k]);
        }
        lemma_pane_index(rest, id, k - 1);
    } else if panes.len() > 0 && k > 0 {
        assert(panes[0].id != id);
    }
}

/// A pane is found where its numbers are: with the numbers of a tab and of a
/// pane in it, the place is that of no other pane.
pub proof fn law_a_pane_is_found_where_it_is(w: WorkspaceModel, i: int, a: int)
    requires
        w.well_formed(),
        0 <= i < w.tabs.len(),
        0 <= a < w.tabs[i].panes.len(),
    ensures
        w.place(w.tabs[i].id, w.tabs[i].panes[a].id) == Some((i, a)),
{
    assert forall|j: int| 0 <= j < i implies (#[trigger] w.tabs[j]).id != w.tabs[i].id by {}
    lemma_tab_index(w.tabs, w.tabs[i].id, i);
    let panes = w.tabs[i].panes;
    assert forall|b: int| 0 <= b < a implies (#[trigger] panes[b]).id != panes[a].id by {
        assert(w.tabs[i].panes[b].id != w.tabs[i].panes[a].id);
    }
    lemma_pane_index(panes, panes[a].id, a);
}

/// A place is that of a pane with the numbers that were looked for.
pub(crate) proof fn lemma_place(w: WorkspaceModel, tab_id: u64, pane_id: u64)
    ensures
        match w.place(tab_id, pane_id) {
            Some((i, a)) => 0 <= i < w.tabs.len() && 0 <= a < w.tabs[i].panes.len()
                && w.tabs[i].id == tab_id && w.tabs[i].panes[a].id == pane_id,
            None => true,
        },
{
    lemma_tab_index_finds(w.tabs, tab_id);
    let i = tab_index(w.tabs, tab_id);
    if i < w.tabs.len() {
        lemma_pane_index_finds(w.tabs[i].panes, pane_id);
    }
}

proof fn lemma_tab_index_finds(tabs: Seq<TabModel>, id: u64)
    ensures
        0 <= tab_index(tabs, id) <= tabs.len(),
        tab_index(tabs, id) < tabs.len() ==> tabs[tab_index(tabs, id)].id == id,
    decreases tabs.len(),
{
    if tabs.len() > 0 && tabs[0].id != id {
        lemma_tab_index_finds(tabs.skip(1), id);
        let k = tab_index(tabs.skip(1), id);
        if k < tabs.len() - 1 {
            assert(tabs.skip(1)[k] == tabs[k + 1]);
        }
    }
}

proof fn lemma_pane_index_finds(panes: Seq<PaneModel>, id: u64)
    ensures
        0 <= pane_index(panes, id) <= panes.len(),
        pane_index(panes, id) < panes.len() ==> panes[pane_index(panes, id)].id == id,
    decreases panes.len(),
{
    if panes.len() > 0 && panes[0].id != id {
        lemma_pane_index_finds(panes.skip(1), id);
        let k = pane_index(panes.skip(1), id);
        if k < panes.len() - 1 {
            assert(panes.skip(1)[k] == panes[k + 1]);
        }
    }
}

/// One tab is exchanged for another with the same number, whose panes were all
/// there, each once, but for one whose number was not given out before. `from`
/// says which pane each one was, and -1 for the new one.
pub(crate) proof fn lemma_exchange(w: WorkspaceModel, i: int, tab: TabModel, from: Seq<int>, next: u64)
    requires
        w.well_formed(),
        0 <= i < w.tabs.len(),
        tab.well_formed(),
        tab.id == w.tabs[i].id,
        next >= w.next_id,
        from.len() == tab.panes.len(),
        forall|b: int|
            0 <= b < from.len() ==> if #[trigger] from[b] == -1 {
                w.next_id < tab.panes[b].id <= next
            } else {
                0 <= from[b] < w.tabs[i].panes.len() && tab.panes[b].id
                    == w.tabs[i].panes[from[b]].id
            },
        forall|b: int, c: int|
            #![trigger from[b], from[c]]
            0 <= b < c < from.len() ==> from[b] != from[c],
    ensures
        (WorkspaceModel { next_id: next, ..w.with_tab_at(i, tab) }).well_formed(),
{
    let after = WorkspaceModel { next_id: next, ..w.with_tab_at(i, tab) };
    let t = w.tabs[i];
    assert forall|k: int| 0 <= k < after.tabs.len() implies (
    #[trigger] after.tabs[k]).well_formed() && after.tabs[k].id <= after.next_id by {
        if k != i {
            assert(after.tabs[k] == w.tabs[k]);
        }
        assert(w.tabs[k].id <= w.next_id);
    }
    assert forall|k: int, a: int|
        0 <= k < after.tabs.len() && 0 <= a < after.tabs[k].panes.len() implies (
    #[trigger] after.tabs[k].panes[a]).id <= after.next_id by {
        if k != i {
            assert(after.tabs[k] == w.tabs[k]);
            assert(w.tabs[k].panes[a].id <= w.next_id);
        } else {
            let f = from[a];
            if f >= 0 {
                assert(w.tabs[i].panes[f].id <= w.next_id);
            }
        }
    }
    assert forall|k: int, l: int|
        #![trigger after.tabs[k], after.tabs[l]]
        0 <= k < l < after.tabs.len() implies after.tabs[k].id != after.tabs[l].id by {
        assert(w.tabs[k].id != w.tabs[l].id);
    }
    assert forall|k: int, a: int, l: int, b: int|
        #![trigger after.tabs[k].panes[a], after.tabs[l].panes[b]]
        0 <= k < after.tabs.len() && 0 <= a < after.tabs[k].panes.len() && 0 <= l
            < after.tabs.len() && 0 <= b < after.tabs[l].panes.len() && (k != l || a
            != b) implies after.tabs[k].panes[a].id != after.tabs[l].panes[b].id by {
        if k != i && l != i {
            assert(after.tabs[k] == w.tabs[k]);
            assert(after.tabs[l] == w.tabs[l]);
            assert(w.tabs[k].panes[a].id != w.tabs[l].panes[b].id);
        } else if k != i {
            assert(after.tabs[k] == w.tabs[k]);
            assert(w.tabs[k].panes[a].id <= w.next_id);
            let f = from[b];
            if f >= 0 {
                assert(w.tabs[k].panes[a].id != w.tabs[i].panes[f].id);
            }
        } else if l != i {
            assert(after.tabs[l] == w.tabs[l]);
            assert(w.tabs[l].panes[b].id <= w.next_id);
            let f = from[a];
            if f >= 0 {
                assert(w.tabs[l].panes[b].id != w.tabs[i].panes[f].id);
            }
        } else {
            let f = from[a];
            let g = from[b];
            assert(f != g);
            if f >= 0 {
                assert(w.tabs[i].panes[f].id <= w.next_id);
            }
            if g >= 0 {
                assert(w.tabs[i].panes[g].id <= w.next_id);
            }
            if f >= 0 && g >= 0 {
                assert(w.tabs[i].panes[f].id != w.tabs[i].panes[g].id);
            }
        }
    }
}

/// Another pane in a place, with its number or with one that was not given out
/// before, keeps the workspace well formed.
proof fn lemma_with_pane(w: WorkspaceModel, i: int, a: int, pane: PaneModel, focused: usize)
    requires
        w.well_formed(),
        0 <= i < w.tabs.len(),
        0 <= a < w.tabs[i].panes.len(),
        focused < w.tabs[i].panes.len(),
        pane.id == w.tabs[i].panes[a].id || pane.id > w.next_id,
    ensures
        ({
            let t = w.tabs[i];
            let next = if pane.id > w.next_id {
                pane.id
            } else {
                w.next_id
            };
            (WorkspaceModel {
                next_id: next,
                ..w.with_tab_at(i, TabModel { panes: t.panes.update(a, pane), focused, ..t })
            }).well_formed()
        }),
{
    let t = w.tabs[i];
    let tab = TabModel { panes: t.panes.update(a, pane), focused, ..t };
    let next = if pane.id > w.next_id {
        pane.id
    } else {
        w.next_id
    };
    let from = Seq::new(
        t.panes.len(),
        |b: int|
            if b == a && pane.id > w.next_id {
                -1
            } else {
                b
            },
    );
    assert(w.tabs[i].well_formed());
    lemma_exchange(w, i, tab, from, next);
}

/// Splitting a tab that has room keeps the workspace well formed.
pub proof fn law_splitting_keeps_order(w: WorkspaceModel, axis: Axis, pane: PaneModel)
    requires
        w.well_formed(),
        w.can_split(),
        pane.id > w.next_id,
    ensures
        w.after_split(axis, pane).well_formed(),
{
    let i = w.active as int;
    let t = w.tabs[i];
    let n = t.panes.len() as usize;
    assert(t.well_formed());
    law_split_keeps_layouts_valid(t.layout, t.panes.len(), t.focused, n, axis);
    let tab = TabModel {
        panes: t.panes.push(pane),
        focused: n,
        layout: t.layout.after_split(t.focused, n, axis),
        ..t
    };
    let from = Seq::new(
        tab.panes.len(),
        |b: int|
            if b == n {
                -1
            } else {
                b
            },
    );
    lemma_exchange(w, i, tab, from, pane.id);
}

/// Closing a pane keeps the workspace well formed: the last pane takes its tab
/// along, and the panes that stay all have a place.
pub proof fn law_closing_a_pane_keeps_order(w: WorkspaceModel)
    requires
        w.well_formed(),
    ensures
        w.without_pane().well_formed(),
{
    if w.active < w.tabs.len() {
        let i = w.active as int;
        let t = w.tabs[i];
        assert(t.well_formed());
        if t.panes.len() > 1 {
            law_remove_keeps_layouts_valid(t.layout, t.panes.len(), t.focused);
            let tab = w.without_pane().tabs[i];
            let from = Seq::new(
                tab.panes.len(),
                |b: int|
                    if b < t.focused {
                        b
                    } else {
                        b + 1
                    },
            );
            lemma_exchange(w, i, tab, from, w.next_id);
        } else {
            crate::workspace::law_closing_a_tab_keeps_order(w, i);
        }
    }
}

/// Closing the pane that a split has just made gives the tab back as it was,
/// but for where the keyboard is.
pub proof fn law_closing_undoes_splitting(w: WorkspaceModel, axis: Axis, pane: PaneModel)
    requires
        w.well_formed(),
        w.can_split(),
        pane.id > w.next_id,
    ensures
        ({
            let after = w.after_split(axis, pane).without_pane();
            let i = w.active as int;
            &&& after.tabs.len() == w.tabs.len()
            &&& after.active == w.active
            &&& after.tabs[i] == (TabModel { focused: after.tabs[i].focused, ..w.tabs[i] })
            &&& forall|k: int|
                0 <= k < w.tabs.len() && k != i ==> #[trigger] after.tabs[k] == w.tabs[k]
        }),
{
    let i = w.active as int;
    let t = w.tabs[i];
    assert(t.well_formed());
    let n = t.panes.len() as usize;
    assert forall|k: int| k >= n implies #[trigger] t.layout.occurs(k) == 0 by {}
    crate::layout::law_remove_undoes_split(t.layout, t.focused, n, axis);
    assert(t.panes.push(pane).remove(n as int) =~= t.panes);
}

/// What becomes of a connection keeps the workspace well formed.
pub proof fn law_connections_keep_order(
    w: WorkspaceModel,
    tab_id: u64,
    pane_id: u64,
    kind: KindModel,
)
    requires
        w.well_formed(),
        w.next_id < u64::MAX,
        w.tabs.len() < usize::MAX,
    ensures
        w.started(tab_id, pane_id, kind).well_formed(),
        w.failed(tab_id, pane_id, kind).well_formed(),
        w.connected(Some((tab_id, pane_id)), kind).well_formed(),
        w.connected(None, kind).well_formed(),
        w.dropped(tab_id, pane_id).well_formed(),
{
    let id = (w.next_id + 1) as u64;
    lemma_place(w, tab_id, pane_id);
    crate::workspace::lemma_with_tab(w, live_pane(id, kind, true));
    match w.place(tab_id, pane_id) {
        Some((i, a)) => {
            let t = w.tabs[i];
            lemma_with_pane(w, i, a, live_pane(id, kind, false), a as usize);
            lemma_with_pane(w, i, a, live_pane(id, kind, true), a as usize);
            lemma_with_pane(w, i, a, detached_pane(pane_id, kind), a as usize);
            lemma_with_pane(w, i, a, detached_pane(pane_id, t.panes[a].kind), t.focused);
            assert(t.panes[a].id <= w.next_id);
        },
        None => {
            let after = w.started(tab_id, pane_id, kind);
            assert(after.tabs == w.tabs);
            crate::workspace::lemma_selection_keeps_ids(
                w,
                after,
                Seq::new(w.tabs.len(), |k: int| k),
            );
        },
    }
}

/// The profile of a connection to a host, with the text of where it goes.
pub open spec fn ssh_target(pane: PaneModel) -> Option<(RemoteModel, Seq<char>)> {
    if pane.remote && pane.link == SessionStatus::Live {
        match pane.kind {
            KindModel::Ssh(p) => Some((p, address(p))),
            _ => None,
        }
    } else {
        None
    }
}

impl Workspace {
    /// Where the pane is, if it still exists: the index of its tab, and its
    /// index there.
    pub fn locate(&self, tab_id: u64, pane_id: u64) -> (out: Option<(usize, usize)>)
        ensures
            match out {
                Some((i, a)) => self@.place(tab_id, pane_id) == Some((i as int, a as int)) && i
                    < self.tabs@.len() && a < self.tabs@[i as int].panes@.len(),
                None => self@.place(tab_id, pane_id) is None,
            },
    {
        let n: usize = self.tabs.len();
        let mut i: usize = 0;
        while i < n && self.tabs[i].id != tab_id
            invariant
                i <= n,
                n == self.tabs@.len(),
                forall|j: int| 0 <= j < i ==> (#[trigger] self@.tabs[j]).id != tab_id,
            decreases n - i,
        {
            assert(self@.tabs[i as int] == self.tabs@[i as int]@);
            i += 1;
        }
        proof {
            if i < n {
                assert(self@.tabs[i as int] == self.tabs@[i as int]@);
            }
            lemma_tab_index(self@.tabs, tab_id, i as int);
        }
        if i == n {
            return None;
        }
        let m: usize = self.tabs[i].panes.len();
        let ghost panes = self@.tabs[i as int].panes;
        let mut a: usize = 0;
        while a < m && self.tabs[i].panes[a].id != pane_id
            invariant
                a <= m,
                i < n,
                n == self.tabs@.len(),
                m == self.tabs@[i as int].panes@.len(),
                panes == pane_models(self.tabs@[i as int].panes@),
                forall|b: int| 0 <= b < a ==> (#[trigger] panes[b]).id != pane_id,
            decreases m - a,
        {
            assert(panes[a as int] == self.tabs@[i as int].panes@[a as int]@);
            a += 1;
        }
        proof {
            if a < m {
                assert(panes[a as int] == self.tabs@[i as int].panes@[a as int]@);
            }
            lemma_pane_index(panes, pane_id, a as int);
        }
        if a == m {
            None
        } else {
            Some((i, a))
        }
    }

    /// Puts another pane in a place, and the keyboard where it is told to.
    pub(crate) fn put_pane(&mut self, i: usize, a: usize, pane: Pane, focused: usize)
        requires
            old(self)@.well_formed(),
            i < old(self).tabs@.len(),
            a < old(self).tabs@[i as int].panes@.len(),
            focused < old(self).tabs@[i as int].panes@.len(),
            pane.id == old(self)@.tabs[i as int].panes[a as int].id || pane.id > old(self)@.next_id,
        ensures
            final(self)@ == (WorkspaceModel {
                next_id: if pane.id > old(self)@.next_id {
                    pane.id
                } else {
                    old(self)@.next_id
                },
                ..old(self)@.with_tab_at(
                    i as int,
                    TabModel {
                        panes: old(self)@.tabs[i as int].panes.update(a as int, pane@),
                        focused,
                        ..old(self)@.tabs[i as int]
                    },
                )
            }),
            final(self)@.well_formed(),
    {
        let ghost before = self@;
        let ghost list = self.tabs@;
        let ghost t = before.tabs[i as int];
        proof {
            lemma_with_pane(before, i as int, a as int, pane@, focused);
        }
        let id: u64 = pane.id;
        let tab: &mut Tab = &mut self.tabs[i];
        let ghost panes = tab.panes@;
        tab.panes.set(a, pane);
        tab.focused = focused;
        proof {
            assert(pane_models(tab.panes@) =~= pane_models(panes).update(a as int, pane@));
            assert(tab@ =~= TabModel { panes: t.panes.update(a as int, pane@), focused, ..t });
        }
        if id > self.next_id {
            self.next_id = id;
        }
        proof {
            assert(tab_models(self.tabs@) =~= before.tabs.update(
                i as int,
                TabModel { panes: t.panes.update(a as int, pane@), focused, ..t },
            ));
        }
    }

    /// Takes over that a session has started in a pane. Says whether the pane
    /// still exists.
    pub fn session_started(&mut self, tab_id: u64, pane_id: u64, kind: SessionKind) -> (found: bool)
        requires
            old(self)@.well_formed(),
            old(self)@.next_id < u64::MAX,
        ensures
            final(self)@ == old(self)@.started(tab_id, pane_id, kind@),
            final(self)@.well_formed(),
            found == (old(self)@.place(tab_id, pane_id) is Some),
    {
        let ghost before = self@;
        let id: u64 = self.next_id + 1;
        match self.locate(tab_id, pane_id) {
            Some((i, a)) => {
                self.put_pane(i, a, Pane::live(id, kind, false), a);
                self.active = i;
                assert(self@ =~= before.started(tab_id, pane_id, kind@));
                true
            },
            None => {
                self.next_id = id;
                assert(self@ =~= before.started(tab_id, pane_id, kind@));
                proof {
                    crate::workspace::lemma_selection_keeps_ids(
                        before,
                        self@,
                        Seq::new(before.tabs.len(), |k: int| k),
                    );
                }
                false
            },
        }
    }

    /// Takes over that a session failed to start in a pane, which stays and
    /// offers another try.
    pub fn session_failed(&mut self, tab_id: u64, pane_id: u64, kind: SessionKind)
        requires
            old(self)@.well_formed(),
        ensures
            final(self)@ == old(self)@.failed(tab_id, pane_id, kind@),
            final(self)@.well_formed(),
    {
        let ghost before = self@;
        proof {
            lemma_place(before, tab_id, pane_id);
        }
        if let Some((i, a)) = self.locate(tab_id, pane_id) {
            assert(before.tabs[i as int].panes[a as int].id <= before.next_id);
            self.put_pane(i, a, Pane::detached(pane_id, kind), a);
            self.active = i;
        }
        assert(self@ =~= before.failed(tab_id, pane_id, kind@));
    }

    /// Takes over a connection to a host that was made for a pane, or for a tab
    /// of its own. Says whether the pane still exists.
    pub fn add_connection(&mut self, at: Option<(u64, u64)>, kind: SessionKind) -> (found: bool)
        requires
            old(self)@.well_formed(),
            old(self)@.next_id < u64::MAX,
            old(self)@.tabs.len() < usize::MAX,
        ensures
            final(self)@ == old(self)@.connected(at, kind@),
            final(self)@.well_formed(),
            found == (at is Some && old(self)@.place((at->0).0, (at->0).1) is Some),
    {
        let ghost before = self@;
        let id: u64 = self.next_id + 1;
        let pane: Pane = Pane::live(id, kind, true);
        let place: Option<(usize, usize)> = match at {
            Some((tab_id, pane_id)) => self.locate(tab_id, pane_id),
            None => None,
        };
        match place {
            Some((i, a)) => {
                self.put_pane(i, a, pane, a);
                assert(self@ =~= before.connected(at, kind@));
                true
            },
            None => {
                self.push_tab(pane);
                false
            },
        }
    }

    /// Takes over that nothing runs in a pane any more. Its screen stays, and so
    /// does the keyboard.
    pub fn drop_session(&mut self, tab_id: u64, pane_id: u64)
        requires
            old(self)@.well_formed(),
        ensures
            final(self)@ == old(self)@.dropped(tab_id, pane_id),
            final(self)@.well_formed(),
    {
        let ghost before = self@;
        proof {
            lemma_place(before, tab_id, pane_id);
        }
        if let Some((i, a)) = self.locate(tab_id, pane_id) {
            let kind: SessionKind = self.tabs[i].panes[a].kind.clone();
            let focused: usize = self.tabs[i].focused;
            proof {
                assert(before.tabs[i as int].well_formed());
                assert(before.tabs[i as int].panes[a as int].id <= before.next_id);
                assert(before.tabs[i as int].panes[a as int].kind == kind@);
            }
            self.put_pane(i, a, Pane::detached(pane_id, kind), focused);
        }
        assert(self@ =~= before.dropped(tab_id, pane_id));
    }

    /// Whether the active tab can take one more pane.
    pub fn has_room(&self) -> (yes: bool)
        ensures
            yes == self@.can_split(),
    {
        self.active < self.tabs.len() && self.tabs[self.active].panes.len() < MAX_PANES
    }

    /// Splits the focused pane, with the keyboard in the new one. Gives the
    /// numbers of the tab and the new pane.
    pub fn split(&mut self, axis: Axis, kind: SessionKind, remote: bool) -> (ids: (u64, u64))
        requires
            old(self)@.well_formed(),
            old(self)@.can_split(),
            old(self)@.next_id < u64::MAX,
        ensures
            final(self)@ == old(self)@.after_split(
                axis,
                live_pane((old(self)@.next_id + 1) as u64, kind@, remote),
            ),
            final(self)@.well_formed(),
            ids == (
                old(self)@.tabs[old(self)@.active as int].id,
                (old(self)@.next_id + 1) as u64,
            ),
    {
        let ghost before = self@;
        let ghost i = self.active as int;
        let ghost t = before.tabs[i];
        let id: u64 = self.next_id + 1;
        let pane: Pane = Pane::live(id, kind, remote);
        proof {
            assert(t.well_formed());
            law_splitting_keeps_order(before, axis, pane@);
        }
        let active: usize = self.active;
        let tab: &mut Tab = &mut self.tabs[active];
        let tab_id: u64 = tab.id;
        let n: usize = tab.panes.len();
        let focused: usize = tab.focused;
        tab.layout.split(focused, n, axis);
        tab.focused = n;
        let ghost panes = tab.panes@;
        tab.panes.push(pane);
        proof {
            assert(pane_models(tab.panes@) =~= pane_models(panes).push(pane@));
            assert(tab@ =~= before.after_split(axis, pane@).tabs[i]);
        }
        self.next_id = id;
        proof {
            assert(tab_models(self.tabs@) =~= before.after_split(axis, pane@).tabs);
        }
        (tab_id, id)
    }

    /// Closes the focused pane. The last pane takes its tab along.
    pub fn close_pane(&mut self)
        requires
            old(self)@.well_formed(),
        ensures
            final(self)@ == old(self)@.without_pane(),
            final(self)@.well_formed(),
    {
        let ghost before = self@;
        proof {
            law_closing_a_pane_keeps_order(before);
        }
        let active: usize = self.active;
        if active < self.tabs.len() {
            let ghost t = before.tabs[active as int];
            assert(t.well_formed());
            if self.tabs[active].panes.len() > 1 {
                proof {
                    law_remove_keeps_layouts_valid(t.layout, t.panes.len(), t.focused);
                }
                let tab: &mut Tab = &mut self.tabs[active];
                let focused: usize = tab.focused;
                let layout: Layout = tab.layout.duplicate();
                match layout.remove(focused) {
                    Some(rest) => {
                        tab.layout = rest;
                    },
                    None => {},
                }
                let ghost panes = tab.panes@;
                tab.panes.remove(focused);
                let n: usize = tab.panes.len();
                if focused >= n {
                    tab.focused = n - 1;
                }
                proof {
                    assert(pane_models(tab.panes@) =~= pane_models(panes).remove(focused as int));
                    assert(tab@ =~= before.without_pane().tabs[active as int]);
                }
                proof {
                    assert(tab_models(self.tabs@) =~= before.without_pane().tabs);
                }
            } else {
                self.close_tab(active);
            }
        }
        assert(self@ =~= before.without_pane());
    }

    /// Activates the next tab; after the last comes the first.
    pub fn next_tab(&mut self)
        requires
            old(self)@.well_formed(),
        ensures
            final(self)@ == old(self)@.next_tab(),
            final(self)@.well_formed(),
    {
        let n: usize = self.tabs.len();
        if n > 0 {
            self.active = if self.active + 1 == n {
                0
            } else {
                self.active + 1
            };
        }
        proof {
            let w = old(self)@;
            if n > 0 && w.active + 1 < n {
                vstd::arithmetic::div_mod::lemma_small_mod((w.active + 1) as nat, n as nat);
            } else if n > 0 {
                vstd::arithmetic::div_mod::lemma_mod_self_0(n as int);
            }
            assert(self@ =~= w.next_tab());
        }
    }

    /// Moves the keyboard to the next pane of the active tab; after the last
    /// comes the first.
    pub fn next_pane(&mut self)
        requires
            old(self)@.well_formed(),
        ensures
            final(self)@ == old(self)@.next_pane(),
            final(self)@.well_formed(),
    {
        let active: usize = self.active;
        if active < self.tabs.len() {
            let ghost t = self@.tabs[active as int];
            assert(t.well_formed());
            let n: usize = self.tabs[active].panes.len();
            let focused: usize = self.tabs[active].focused;
            let next: usize = if focused + 1 == n {
                0
            } else {
                focused + 1
            };
            proof {
                if focused + 1 < n {
                    vstd::arithmetic::div_mod::lemma_small_mod((focused + 1) as nat, n as nat);
                } else {
                    vstd::arithmetic::div_mod::lemma_mod_self_0(n as int);
                }
            }
            self.focus(next);
        }
    }

    /// Moves the keyboard to a pane of the active tab.
    pub fn focus(&mut self, a: usize)
        requires
            old(self)@.well_formed(),
            old(self)@.active < old(self)@.tabs.len() ==> a < old(
                self,
            )@.tabs[old(self)@.active as int].panes.len(),
        ensures
            final(self)@ == old(self)@.focused(a),
            final(self)@.well_formed(),
    {
        let ghost before = self@;
        let active: usize = self.active;
        if active < self.tabs.len() {
            let ghost t = before.tabs[active as int];
            let tab: &mut Tab = &mut self.tabs[active];
            tab.focused = a;
            proof {
                assert(tab@ =~= TabModel { focused: a, ..t });
            }
            proof {
                assert(tab_models(self.tabs@) =~= before.focused(a).tabs);
                assert(t.well_formed());
                lemma_exchange(
                    before,
                    active as int,
                    TabModel { focused: a, ..t },
                    Seq::new(t.panes.len(), |b: int| b),
                    before.next_id,
                );
            }
        }
        assert(self@ =~= before.focused(a));
    }

    /// The profile of the focused pane and where it goes, when it is a live SSH
    /// session: the only thing that the server toolbox can act on.
    pub fn focused_ssh(&self) -> (out: Option<(RemoteProfile, String)>)
        requires
            self@.well_formed(),
        ensures
            match out {
                Some((p, text)) => self@.current() is Some && ssh_target(self@.current()->0)
                    == Some((p@, text@)),
                None => self@.current() is None || ssh_target(self@.current()->0) is None,
            },
    {
        if self.active >= self.tabs.len() {
            return None;
        }
        let tab: &Tab = &self.tabs[self.active];
        assert(self@.tabs[self.active as int].well_formed());
        assert(self@.tabs[self.active as int] == tab@);
        let pane: &Pane = &tab.panes[tab.focused];
        assert(self@.current() == Some(pane@));
        if !pane.remote || pane.link != SessionStatus::Live {
            return None;
        }
        match &pane.kind {
            SessionKind::Ssh(p) => Some((p.duplicate(), address_of(p))),
            _ => None,
        }
    }

    /// The link state of the focused pane.
    pub fn active_link(&self) -> (out: Option<SessionStatus>)
        requires
            self@.well_formed(),
        ensures
            out == (match self@.current() {
                Some(pane) => Some(pane.link),
                None => None,
            }),
    {
        if self.active >= self.tabs.len() {
            return None;
        }
        let tab: &Tab = &self.tabs[self.active];
        assert(self@.tabs[self.active as int].well_formed());
        assert(self@.tabs[self.active as int] == tab@);
        assert(self@.current() == Some(tab.panes@[tab.focused as int]@));
        Some(tab.panes[tab.focused].link)
    }

    /// Whether the focused pane runs over a connection to a host.
    pub fn active_is_remote(&self) -> (yes: bool)
        requires
            self@.well_formed(),
        ensures
            yes == (self@.current() matches Some(pane) && pane.remote),
    {
        if self.active >= self.tabs.len() {
            return false;
        }
        let tab: &Tab = &self.tabs[self.active];
        assert(self@.tabs[self.active as int].well_formed());
        assert(self@.tabs[self.active as int] == tab@);
        assert(self@.current() == Some(tab.panes@[tab.focused as int]@));
        tab.panes[tab.focused].remote
    }
}

/// Whether the workspaces are the same but for one pane, its tab's keyboard and layout.
pub open spec fn same_elsewhere(w: WorkspaceModel, after: WorkspaceModel, i: int, a: int) -> bool {
    &&& after.tabs.len() == w.tabs.len()
    &&& forall|k: int| 0 <= k < w.tabs.len() && k != i ==> #[trigger] after.tabs[k] == w.tabs[k]
    &&& after.tabs[i].panes.len() == w.tabs[i].panes.len()
    &&& forall|b: int|
        0 <= b < w.tabs[i].panes.len() && b != a ==> #[trigger] after.tabs[i].panes[b]
            == w.tabs[i].panes[b]
    &&& after.tabs[i].layout == w.tabs[i].layout
    &&& after.tabs[i].id == w.tabs[i].id
    &&& after.tabs[i].seen_output == w.tabs[i].seen_output
}

/// What becomes of a pane whose session starts, fails, is connected or is ended. A
/// session that starts, and a connection that is made, give the pane a new number and
/// run in it; one that fails or is ended leaves it with its number and nothing running.
/// The pane gets the keyboard of its tab unless it was ended, and the tab comes to the
/// front where a session has started or failed. Everything else stays.
pub proof fn law_what_becomes_of_a_session(w: WorkspaceModel, i: int, a: int, kind: KindModel)
    requires
        w.well_formed(),
        w.next_id < u64::MAX,
        0 <= i < w.tabs.len() <= usize::MAX,
        0 <= a < w.tabs[i].panes.len(),
    ensures
        ({
            let tab = w.tabs[i].id;
            let p = w.tabs[i].panes[a];
            let fresh = PaneModel {
                id: (w.next_id + 1) as u64,
                kind,
                link: SessionStatus::Live,
                pending: false,
                remote: false,
                received: 0,
                bell: false,
            };
            let off = PaneModel {
                id: p.id,
                kind,
                link: SessionStatus::Detached,
                pending: false,
                remote: false,
                received: 0,
                bell: false,
            };
            let started = w.started(tab, p.id, kind);
            let failed = w.failed(tab, p.id, kind);
            let connected = w.connected(Some((tab, p.id)), kind);
            let dropped = w.dropped(tab, p.id);
            &&& same_elsewhere(w, started, i, a) && started.tabs[i].panes[a] == fresh
            &&& started.active == i && started.tabs[i].focused == a && started.next_id == w.next_id
                + 1
            &&& same_elsewhere(w, failed, i, a) && failed.tabs[i].panes[a] == off
            &&& failed.active == i && failed.tabs[i].focused == a && failed.next_id == w.next_id
            &&& same_elsewhere(w, connected, i, a) && connected.tabs[i].panes[a] == (PaneModel {
                remote: true,
                ..fresh
            })
            &&& connected.active == w.active && connected.tabs[i].focused == a && connected.next_id
                == w.next_id + 1
            &&& same_elsewhere(w, dropped, i, a) && dropped.tabs[i].panes[a] == (PaneModel {
                kind: p.kind,
                ..off
            })
            &&& dropped.active == w.active && dropped.tabs[i].focused == w.tabs[i].focused
                && dropped.next_id == w.next_id
        }),
{
    law_a_pane_is_found_where_it_is(w, i, a);
    assert(w.tabs[i].well_formed());
    assert(w.tabs[i].panes[a].id <= w.next_id);
}

/// Where the pane is gone, a session that starts leaves nothing but a number behind, one
/// that fails or is ended changes nothing, and a connection opens a tab of its own behind
/// the others, which comes to the front.
pub proof fn law_what_becomes_of_a_pane_that_is_gone(
    w: WorkspaceModel,
    tab: u64,
    pane: u64,
    kind: KindModel,
)
    requires
        w.next_id < u64::MAX,
        forall|i: int, a: int|
            0 <= i < w.tabs.len() && 0 <= a < w.tabs[i].panes.len() ==> !(w.tabs[i].id == tab && (
            #[trigger] w.tabs[i].panes[a]).id == pane),
    ensures
        w.started(tab, pane, kind) == (WorkspaceModel { next_id: (w.next_id + 1) as u64, ..w }),
        w.failed(tab, pane, kind) == w,
        w.dropped(tab, pane) == w,
        ({
            let live = live_pane((w.next_id + 1) as u64, kind, true);
            w.connected(Some((tab, pane)), kind) == w.with_tab(live) && w.connected(None, kind)
                == w.with_tab(live)
        }),
{
    lemma_place(w, tab, pane);
    if let Some((i, a)) = w.place(tab, pane) {
        assert(w.tabs[i].panes[a].id == pane);
    }
}

/// What a split does to the workspace: the active tab has one pane more, behind the
/// others and with the keyboard, and the area of the pane that had it is divided between
/// the two. Everything else stays.
pub proof fn law_what_a_split_does(w: WorkspaceModel, axis: Axis, pane: PaneModel, k: int)
    requires
        w.well_formed(),
        w.can_split(),
    ensures
        ({
            let i = w.active as int;
            let t = w.tabs[i];
            let after = w.after_split(axis, pane);
            let s = after.tabs[i];
            &&& w.active < w.tabs.len() && t.panes.len() < 32
            &&& after.tabs.len() == w.tabs.len() && after.active == w.active
            &&& 0 <= k < w.tabs.len() && k != i ==> after.tabs[k] == w.tabs[k]
            &&& s.panes == t.panes.push(pane) && s.focused == t.panes.len()
            &&& s.layout == t.layout.after_split(t.focused, t.panes.len() as usize, axis)
            &&& s.id == t.id && s.seen_output == t.seen_output
            &&& after.next_id == pane.id
        }),
{
    assert(w.tabs[w.active as int].well_formed());
}

/// What closing a pane does to a tab with others: the pane with the keyboard is gone and
/// the others are there in their order; the keyboard is where the next one now is, or in
/// the last. Everything else stays.
pub proof fn law_what_closing_a_pane_does(w: WorkspaceModel, k: int, b: int)
    requires
        w.well_formed(),
        w.active < w.tabs.len(),
        w.tabs[w.active as int].panes.len() > 1,
    ensures
        ({
            let i = w.active as int;
            let t = w.tabs[i];
            let after = w.without_pane();
            let s = after.tabs[i];
            let n = t.panes.len() - 1;
            &&& after.tabs.len() == w.tabs.len() && after.active == w.active && after.next_id
                == w.next_id
            &&& 0 <= k < w.tabs.len() && k != i ==> after.tabs[k] == w.tabs[k]
            &&& s.panes.len() == n && s.id == t.id && s.seen_output == t.seen_output
            &&& 0 <= b < t.focused ==> s.panes[b] == t.panes[b]
            &&& t.focused <= b < n ==> s.panes[b] == t.panes[b + 1]
            &&& s.focused == (if t.focused < n {
                t.focused as int
            } else {
                n - 1
            })
            &&& t.layout.after_remove(t.focused) == Some(s.layout)
        }),
{
    let t = w.tabs[w.active as int];
    assert(t.well_formed());
    law_remove_keeps_layouts_valid(t.layout, t.panes.len(), t.focused);
}

/// The next tab is the one behind the active one, and the first after the last; the next
/// pane is the same within the active tab. Nothing but the front, or the keyboard, moves.
pub proof fn law_next_goes_round(w: WorkspaceModel, a: usize)
    requires
        w.well_formed(),
        w.active < w.tabs.len() <= usize::MAX,
    ensures
        ({
            let i = w.active as int;
            let t = w.tabs[i];
            &&& w.next_tab() == (WorkspaceModel {
                active: (if w.active + 1 == w.tabs.len() {
                    0
                } else {
                    w.active + 1
                }) as usize,
                ..w
            })
            &&& w.next_pane() == (WorkspaceModel {
                tabs: w.tabs.update(
                    i,
                    TabModel {
                        focused: (if t.focused + 1 == t.panes.len() {
                            0
                        } else {
                            t.focused + 1
                        }) as usize,
                        ..t
                    },
                ),
                ..w
            })
            &&& w.focused(a) == (WorkspaceModel {
                tabs: w.tabs.update(i, TabModel { focused: a, ..t }),
                ..w
            })
            &&& w.current() == Some(t.panes[t.focused as int])
        }),
{
    let n = w.tabs.len() as int;
    let m = w.tabs[w.active as int].panes.len() as int;
    assert(w.tabs[w.active as int].well_formed());
    if w.active + 1 == n {
        assert(n % n == 0) by (nonlinear_arith)
            requires
                n > 0,
        ;
    } else {
        vstd::arithmetic::div_mod::lemma_small_mod((w.active + 1) as nat, n as nat);
    }
    let f = w.tabs[w.active as int].focused;
    if f + 1 == m {
        assert(m % m == 0) by (nonlinear_arith)
            requires
                m > 0,
        ;
    } else {
        vstd::arithmetic::div_mod::lemma_small_mod((f + 1) as nat, m as nat);
    }
}

/// A pane is found by its number and that of its tab, and only by both.
pub proof fn law_panes_are_found_by_their_numbers(
    w: WorkspaceModel,
    tab: u64,
    pane: u64,
    i: int,
    a: int,
)
    requires
        w.well_formed(),
        0 <= i < w.tabs.len(),
        0 <= a < w.tabs[i].panes.len(),
    ensures
        w.place(tab, pane) matches Some((j, b)) ==> 0 <= j < w.tabs.len() && 0 <= b
            < w.tabs[j].panes.len() && w.tabs[j].id == tab && w.tabs[j].panes[b].id == pane,
        w.place(tab, pane) is None ==> !(w.tabs[i].id == tab && w.tabs[i].panes[a].id == pane),
        w.place(w.tabs[i].id, w.tabs[i].panes[a].id) == Some((i, a)),
{
    lemma_place(w, tab, pane);
    law_a_pane_is_found_where_it_is(w, i, a);
}

/// A script can be typed into a session of a host that is connected and live, and into no
/// other.
pub proof fn law_which_panes_are_on_a_host(pane: PaneModel)
    ensures
        pane.kind matches KindModel::Ssh(p) && pane.remote && pane.link == SessionStatus::Live
            ==> ssh_target(pane) == Some((pane.kind->Ssh_0, address(pane.kind->Ssh_0))),
        !(pane.kind is Ssh) || !pane.remote || pane.link != SessionStatus::Live ==> ssh_target(
            pane,
        ) is None,
{
}

} // verus!
