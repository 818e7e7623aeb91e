//! What is kept of the open tabs for the next start, and how they come back.

use crate::layout::{saved_models, SavedModel, SavedTab};
use crate::session::{kind_models, KindModel, SessionKind};
use crate::workspace::{
    detached_pane, last_or, pane_models, tab_models, Pane, PaneModel, Tab, TabModel, Workspace,
    WorkspaceModel, MAX_PANES, MAX_RESTORED,
};
use vstd::prelude::*;

verus! {

/// What is kept of a tab: what its panes run, where they sit, and which of them
/// has the keyboard.
pub open spec fn saved_tab(t: TabModel) -> SavedModel {
    SavedModel {
        sessions: t.panes.map_values(|p: PaneModel| p.kind),
        layout: t.layout,
        focused: t.focused,
    }
}

/// What is kept of the open tabs.
pub open spec fn saved_tabs(w: WorkspaceModel) -> Seq<SavedModel> {
    w.tabs.map_values(|t: TabModel| saved_tab(t))
}

/// Whether a saved tab can be brought back.
pub open spec fn usable(s: SavedModel) -> bool {
    &&& 0 < s.sessions.len() <= MAX_PANES
    &&& s.layout.well_formed(s.sessions.len() as int)
}

/// The panes of a saved tab, with nothing running in them, numbered from
/// `first` on.
pub open spec fn restored_panes(sessions: Seq<KindModel>, first: u64) -> Seq<PaneModel> {
    Seq::new(sessions.len(), |k: int| detached_pane((first + k) as u64, sessions[k]))
}

/// A saved tab brought back.
pub open spec fn restored_tab(s: SavedModel, first: u64) -> TabModel {
    TabModel {
        id: first,
        panes: restored_panes(s.sessions, first),
        focused: last_or(s.focused as int, s.sessions.len() as int),
        layout: s.layout,
        seen_output: 0,
    }
}

/// The workspace with the saved tabs that can be brought back.
pub open spec fn restored(w: WorkspaceModel, list: Seq<SavedModel>) -> WorkspaceModel
    decreases list.len(),
{
    if list.len() == 0 {
        w
    } else {
        let before = restored(w, list.drop_last());
        let s = list.last();
        if usable(s) {
            WorkspaceModel {
                tabs: before.tabs.push(restored_tab(s, (before.next_id + 1) as u64)),
                next_id: (before.next_id + s.sessions.len()) as u64,
                ..before
            }
        } else {
            before
        }
    }
}

pub(crate) proof fn lemma_restored(w: WorkspaceModel, list: Seq<SavedModel>)
    requires
        w.well_formed(),
        w.next_id + 32 * list.len() <= u64::MAX,
        w.tabs.len() + list.len() <= usize::MAX,
    ensures
        restored(w, list).well_formed(),
        restored(w, list).next_id <= w.next_id + 32 * list.len(),
        restored(w, list).next_id >= w.next_id,
        w.tabs.len() <= restored(w, list).tabs.len() <= w.tabs.len() + list.len(),
    decreases list.len(),
{
    if list.len() > 0 {
        lemma_restored(w, list.drop_last());
        let before = restored(w, list.drop_last());
        let s = list.last();
        if usable(s) {
            let after = restored(w, list);
            let first = (before.next_id + 1) as u64;
            let tab = restored_tab(s, first);
            let n = before.tabs.len() as int;
            assert(tab.well_formed());
            assert forall|i: int| 0 <= i < after.tabs.len() implies (
            #[trigger] after.tabs[i]).well_formed() && after.tabs[i].id <= after.next_id by {
                if i < n {
                    assert(after.tabs[i] == before.tabs[i]);
                }
            }
            assert forall|i: int, a: int|
                0 <= i < after.tabs.len() && 0 <= a < after.tabs[i].panes.len() implies (
            #[trigger] after.tabs[i].panes[a]).id <= after.next_id by {
                if i < n {
                    assert(after.tabs[i] == before.tabs[i]);
                    assert(before.tabs[i].panes[a].id <= before.next_id);
                }
            }
            assert forall|i: int, j: int|
                #![trigger after.tabs[i], after.tabs[j]]
                0 <= i < j < after.tabs.len() implies after.tabs[i].id != after.tabs[j].id by {
                assert(after.tabs[i] == before.tabs[i]);
                assert(before.tabs[i].id <= before.next_id);
                if j < n {
                    assert(after.tabs[j] == before.tabs[j]);
                }
            }
            assert forall|i: int, a: int, j: int, b: int|
                #![trigger after.tabs[i].panes[a], after.tabs[j].panes[b]]
                0 <= i < after.tabs.len() && 0 <= a < after.tabs[i].panes.len() && 0 <= j
                    < after.tabs.len() && 0 <= b < after.tabs[j].panes.len() && (i != j || a
                    != b) implies after.tabs[i].panes[a].id != after.tabs[j].panes[b].id by {
                if i < n {
                    assert(after.tabs[i] == before.tabs[i]);
                    assert(before.tabs[i].panes[a].id <= before.next_id);
                }
                if j < n {
                    assert(after.tabs[j] == before.tabs[j]);
                    assert(before.tabs[j].panes[b].id <= before.next_id);
                }
            }
        }
    }
}

impl Workspace {
    /// What is kept of the open tabs for the next start.
    pub fn snapshot(&self) -> (out: Vec<SavedTab>)
        ensures
            saved_models(out@) == saved_tabs(self@),
    {
        let n: usize = self.tabs.len();
        let mut out: Vec<SavedTab> = Vec::new();
        let mut i: usize = 0;
        while i < n
            invariant
                i <= n,
                n == self.tabs@.len(),
                out@.len() == i,
                forall|k: int|
                    0 <= k < i ==> (#[trigger] out@[k])@ == saved_tab(self@.tabs[k]),
            decreases n - i,
        {
            let tab: &Tab = &self.tabs[i];
            assert(self@.tabs[i as int] == tab@);
            let m: usize = tab.panes.len();
            let mut sessions: Vec<SessionKind> = Vec::new();
            for k in 0..m
                invariant
                    m == tab.panes@.len(),
                    sessions@.len() == k,
                    forall|j: int|
                        0 <= j < k ==> (#[trigger] sessions@[j])@ == tab.panes@[j].kind@,
            {
                sessions.push(tab.panes[k].kind.clone());
            }
            let saved = SavedTab {
                sessions,
                layout: tab.layout.duplicate(),
                focused: tab.focused,
            };
            assert(kind_models(sessions@) =~= saved_tab(tab@).sessions);
            assert(saved@ =~= saved_tab(tab@));
            out.push(saved);
            i += 1;
        }
        assert(saved_models(out@) =~= saved_tabs(self@));
        out
    }

    /// Brings the saved tabs back, the first thirty-two of them. Nothing runs
    /// in any pane until the user asks for it, and a tab that cannot be rebuilt
    /// is left out.
    pub fn restore(&mut self, list: Vec<SavedTab>)
        requires
            old(self)@.well_formed(),
            old(self)@.next_id + MAX_RESTORED * MAX_PANES <= u64::MAX,
            old(self)@.tabs.len() + MAX_RESTORED <= usize::MAX,
        ensures
            final(self)@ == restored(
                old(self)@,
                if list@.len() > MAX_RESTORED {
                    saved_models(list@).take(MAX_RESTORED as int)
                } else {
                    saved_models(list@)
                },
            ),
            final(self)@.well_formed(),
    {
        let ghost before = self@;
        let ghost all = saved_models(list@);
        let ghost source = list@;
        let mut seen: usize = 0;
        assert(all.take(0) =~= Seq::<SavedModel>::empty());
        for saved in it: list
            invariant
                it.seq() == source,
                all == saved_models(source),
                seen == if it.index() < MAX_RESTORED {
                    it.index() as int
                } else {
                    MAX_RESTORED as int
                },
                before.well_formed(),
                before.next_id + MAX_RESTORED * MAX_PANES <= u64::MAX,
                before.tabs.len() + MAX_RESTORED <= usize::MAX,
                self@ == restored(before, all.take(seen as int)),
        {
            let ghost k = it.index() as int;
            if seen < MAX_RESTORED {
                proof {
                    lemma_restored(before, all.take(seen as int));
                    assert(all.take(seen + 1).drop_last() =~= all.take(seen as int));
                    assert(all.take(seen + 1).last() == saved@);
                }
                let n: usize = saved.sessions.len();
                if n > 0 && n <= MAX_PANES && saved.layout.valid(n) {
                    self.bring_back(saved);
                }
                seen += 1;
            }
        }
        proof {
            lemma_restored(before, all.take(seen as int));
            if all.len() <= MAX_RESTORED {
                assert(all.take(seen as int) =~= all);
            }
        }
    }

    /// Brings one saved tab back.
    fn bring_back(&mut self, saved: SavedTab)
        requires
            usable(saved@),
            old(self)@.next_id + 32 <= u64::MAX,
        ensures
            final(self)@ == (WorkspaceModel {
                tabs: old(self)@.tabs.push(
                    restored_tab(saved@, (old(self)@.next_id + 1) as u64),
                ),
                next_id: (old(self)@.next_id + saved@.sessions.len()) as u64,
                ..old(self)@
            }),
    {
        let ghost before = self@;
        let ghost list = self.tabs@;
        let SavedTab { sessions, layout, focused } = saved;
        let ghost kinds = kind_models(sessions@);
        let ghost source = sessions@;
        let n: usize = sessions.len();
        let first: u64 = self.next_id + 1;
        let mut panes: Vec<Pane> = Vec::new();
        for kind in it: sessions
            invariant
                it.seq() == source,
                kinds == kind_models(source),
                n == source.len(),
                n <= 32,
                first == before.next_id + 1,
                before.next_id + 32 <= u64::MAX,
                panes@.len() == it.index(),
                forall|j: int|
                    0 <= j < panes@.len() ==> (#[trigger] panes@[j])@ == detached_pane(
                        (first + j) as u64,
                        kinds[j],
                    ),
        {
            let k: usize = panes.len();
            panes.push(Pane::detached(first + k as u64, kind));
        }
        let tab = Tab {
            id: first,
            panes,
            focused: if focused < n {
                focused
            } else {
                n - 1
            },
            layout,
            seen_output: 0,
        };
        proof {
            assert(pane_models(panes@) =~= restored_panes(kinds, first));
            assert(tab@ =~= restored_tab(saved@, first));
        }
        self.next_id = self.next_id + n as u64;
        self.tabs.push(tab);
        proof {
            assert(tab_models(self.tabs@) =~= tab_models(list).push(tab@));
        }
    }
}

/// What is kept comes back: the tabs of a start are those that were open, with
/// the same layouts, the same sessions and the keyboard in the same panes, as
/// far as that many tabs come back at all.
pub proof fn law_what_is_saved_comes_back(w: WorkspaceModel)
    requires
        w.well_formed(),
    ensures
        ({
            let fresh = WorkspaceModel { tabs: Seq::empty(), active: 0, next_id: 0 };
            saved_tabs(restored(fresh, saved_tabs(w))) == saved_tabs(w)
        }),
{
    let fresh = WorkspaceModel { tabs: Seq::empty(), active: 0, next_id: 0 };
    assert(saved_tabs(w).take(saved_tabs(w).len() as int) =~= saved_tabs(w));
    lemma_comes_back(w, fresh, saved_tabs(w).len() as int);
}

proof fn lemma_comes_back(w: WorkspaceModel, fresh: WorkspaceModel, n: int)
    requires
        w.well_formed(),
        0 <= n <= w.tabs.len(),
        fresh.tabs.len() == 0,
    ensures
        saved_tabs(restored(fresh, saved_tabs(w).take(n))) == saved_tabs(w).take(n),
    decreases n,
{
    let list = saved_tabs(w);
    if n == 0 {
        assert(list.take(0) =~= Seq::<SavedModel>::empty());
        assert(saved_tabs(fresh) =~= Seq::<SavedModel>::empty());
    } else {
        lemma_comes_back(w, fresh, n - 1);
        assert(list.take(n).drop_last() =~= list.take(n - 1));
        let before = restored(fresh, list.take(n - 1));
        let after = restored(fresh, list.take(n));
        let s = list[n - 1];
        assert(w.tabs[n - 1].well_formed());
        assert(usable(s));
        let tab = restored_tab(s, (before.next_id + 1) as u64);
        assert(after.tabs == before.tabs.push(tab));
        assert(saved_tab(tab).sessions =~= s.sessions);
        assert(saved_tab(tab) =~= s);
        assert(saved_tabs(after) =~= saved_tabs(before).push(saved_tab(tab)));
        assert(list.take(n) =~= list.take(n - 1).push(s));
    }
}

/// Nothing runs in a tab that was brought back, and no connection is being made
/// in one.
pub proof fn law_nothing_runs_after_a_start(list: Seq<SavedModel>, i: int, a: int)
    requires
        0 <= i < restored(
            (WorkspaceModel { tabs: Seq::empty(), active: 0, next_id: 0 }),
            list,
        ).tabs.len(),
        0 <= a < restored(
            (WorkspaceModel { tabs: Seq::empty(), active: 0, next_id: 0 }),
            list,
        ).tabs[i].panes.len(),
    ensures
        restored(
            (WorkspaceModel { tabs: Seq::empty(), active: 0, next_id: 0 }),
            list,
        ).tabs[i].panes[a].ended(),
    decreases list.len(),
{
    if list.len() > 0 {
        let fresh = WorkspaceModel { tabs: Seq::empty(), active: 0, next_id: 0 };
        let before = restored(fresh, list.drop_last());
        if i < before.tabs.len() {
            assert(restored(fresh, list).tabs[i] == before.tabs[i]);
            law_nothing_runs_after_a_start(list.drop_last(), i, a);
        }
    }
}

/// What is kept of each tab: what each of its panes runs, in order, where they sit, and
/// which has the keyboard.
pub proof fn law_what_is_kept_of_a_tab(w: WorkspaceModel, i: int, a: int)
    requires
        0 <= i < w.tabs.len(),
    ensures
        saved_tabs(w).len() == w.tabs.len(),
        saved_tabs(w)[i].sessions.len() == w.tabs[i].panes.len(),
        0 <= a < w.tabs[i].panes.len() ==> saved_tabs(w)[i].sessions[a] == w.tabs[i].panes[a].kind,
        saved_tabs(w)[i].layout == w.tabs[i].layout,
        saved_tabs(w)[i].focused == w.tabs[i].focused,
{
}

/// How a saved tab comes back: behind the tabs that are there, with its layout, and in
/// each pane what ran there, disconnected and with a number of its own. The keyboard is
/// where it was, or in the last pane where that is gone. One with no panes, with more
/// than 32, or with a layout that cannot be drawn does not come back.
pub proof fn law_how_a_saved_tab_comes_back(
    w: WorkspaceModel,
    list: Seq<SavedModel>,
    s: SavedModel,
    a: int,
)
    requires
        restored(w, list).next_id + 32 <= u64::MAX,
        s.sessions.len() <= usize::MAX,
    ensures
        restored(w, Seq::empty()) == w,
        ({
            let before = restored(w, list);
            let after = restored(w, list.push(s));
            let n = s.sessions.len();
            if 1 <= n <= 32 && s.layout.well_formed(n as int) {
                let t = after.tabs.last();
                &&& after.tabs.len() == before.tabs.len() + 1
                &&& after.tabs.drop_last() == before.tabs
                &&& after.active == before.active
                &&& after.next_id == before.next_id + n
                &&& t.layout == s.layout && t.panes.len() == n && t.seen_output == 0
                &&& t.id == before.next_id + 1
                &&& t.focused == (if s.focused < n {
                    s.focused as int
                } else {
                    n - 1
                })
                &&& 0 <= a < n ==> t.panes[a] == (PaneModel {
                    id: (before.next_id + 1 + a) as u64,
                    kind: s.sessions[a],
                    link: crate::session::SessionStatus::Detached,
                    pending: false,
                    remote: false,
                    received: 0,
                    bell: false,
                })
            } else {
                after == before
            }
        }),
        MAX_RESTORED == 32,
{
    let all = list.push(s);
    assert(all.drop_last() =~= list);
    let after = restored(w, all);
    assert(usable(s) ==> after.tabs.drop_last() =~= restored(w, list).tabs);
}

} // verus!
