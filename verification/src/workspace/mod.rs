//! The open tabs and their panes: what is open, what is focused, and what every
//! change keeps.

pub mod panes;
pub mod saved;
pub mod status;

use crate::layout::Layout;
use crate::session::{KindModel, SessionKind, SessionStatus};
use vstd::prelude::*;

verus! {

/// The most panes of a tab.
pub const MAX_PANES: usize = 32;

/// The most tabs that are brought back at a start.
pub const MAX_RESTORED: usize = 32;

/// One session on the screen.
#[derive(Debug)]
pub struct Pane {
    /// The number by which the pane is told from every other.
    pub id: u64,
    pub kind: SessionKind,
    pub link: SessionStatus,
    /// A connection is being made.
    pub pending: bool,
    /// The session runs over a connection to a host.
    pub remote: bool,
    /// The bytes received so far.
    pub received: u64,
    /// The session rang and nobody has looked yet.
    pub bell: bool,
}

/// A tab: panes, and where each of them sits.
#[derive(Debug)]
pub struct Tab {
    pub id: u64,
    pub panes: Vec<Pane>,
    /// The pane with the keyboard.
    pub focused: usize,
    pub layout: Layout,
    /// The bytes its panes had received when the tab was last looked at.
    pub seen_output: u64,
}

/// The open tabs.
#[derive(Debug)]
pub struct Workspace {
    pub tabs: Vec<Tab>,
    pub active: usize,
    /// The greatest number that was given to a pane.
    pub next_id: u64,
}

/// What a pane holds.
#[verifier::ext_equal]
pub struct PaneModel {
    pub id: u64,
    pub kind: KindModel,
    pub link: SessionStatus,
    pub pending: bool,
    pub remote: bool,
    pub received: u64,
    pub bell: bool,
}

/// What a tab holds.
#[verifier::ext_equal]
pub struct TabModel {
    pub id: u64,
    pub panes: Seq<PaneModel>,
    pub focused: usize,
    pub layout: Layout,
    pub seen_output: u64,
}

/// What the workspace holds.
#[verifier::ext_equal]
pub struct WorkspaceModel {
    pub tabs: Seq<TabModel>,
    pub active: usize,
    pub next_id: u64,
}

impl View for Pane {
    type V = PaneModel;

    open spec fn view(&self) -> PaneModel {
        PaneModel {
            id: self.id,
            kind: self.kind@,
            link: self.link,
            pending: self.pending,
            remote: self.remote,
            received: self.received,
            bell: self.bell,
        }
    }
}

/// What the panes of a list hold.
pub open spec fn pane_models(list: Seq<Pane>) -> Seq<PaneModel> {
    list.map_values(|p: Pane| p@)
}

impl View for Tab {
    type V = TabModel;

    open spec fn view(&self) -> TabModel {
        TabModel {
            id: self.id,
            panes: pane_models(self.panes@),
            focused: self.focused,
            layout: self.layout,
            seen_output: self.seen_output,
        }
    }
}

/// What the tabs of a list hold.
pub open spec fn tab_models(list: Seq<Tab>) -> Seq<TabModel> {
    list.map_values(|t: Tab| t@)
}

impl View for Workspace {
    type V = WorkspaceModel;

    open spec fn view(&self) -> WorkspaceModel {
        WorkspaceModel {
            tabs: tab_models(self.tabs@),
            active: self.active,
            next_id: self.next_id,
        }
    }
}

impl PaneModel {
    /// Whether nothing runs in the pane and nothing is about to.
    pub open spec fn ended(self) -> bool {
        !self.pending && self.link == SessionStatus::Detached
    }

    /// Whether the session runs or is about to.
    pub open spec fn busy(self) -> bool {
        self.pending || self.link == SessionStatus::Live
    }
}

impl TabModel {
    /// Whether the tab has panes, no more than it may, one of them with the
    /// keyboard, and a place for each.
    pub open spec fn well_formed(self) -> bool {
        &&& 0 < self.panes.len() <= MAX_PANES
        &&& self.focused < self.panes.len()
        &&& self.layout.well_formed(self.panes.len() as int)
    }

    /// The pane with the keyboard.
    pub open spec fn current(self) -> PaneModel {
        self.panes[self.focused as int]
    }

    /// Whether every session of the tab has ended.
    pub open spec fn ended(self) -> bool {
        forall|i: int| 0 <= i < self.panes.len() ==> (#[trigger] self.panes[i]).ended()
    }

    /// The bytes received by the first `n` panes.
    pub open spec fn received(self, n: int) -> int
        decreases n,
    {
        if n <= 0 {
            0
        } else {
            self.received(n - 1) + self.panes[n - 1].received
        }
    }

    /// The bytes received by the panes of the tab.
    pub open spec fn output(self) -> int {
        self.received(self.panes.len() as int)
    }

    /// Whether the tab is marked: it is in the background and more has come than
    /// was there when it was last looked at.
    pub open spec fn updated(self, active: bool) -> bool {
        !active && self.output() > self.seen_output
    }

    /// The state of the least healthy pane.
    pub open spec fn link(self) -> SessionStatus {
        if exists|i: int|
            0 <= i < self.panes.len() && (#[trigger] self.panes[i]).link == SessionStatus::Lost {
            SessionStatus::Lost
        } else if exists|i: int|
            0 <= i < self.panes.len() && (#[trigger] self.panes[i]).link
                == SessionStatus::Detached {
            SessionStatus::Detached
        } else {
            SessionStatus::Live
        }
    }
}

/// The index of the first tab with the number, or the length.
pub open spec fn tab_index(tabs: Seq<TabModel>, id: u64) -> int
    decreases tabs.len(),
{
    if tabs.len() == 0 || tabs[0].id == id {
        0
    } else {
        1 + tab_index(tabs.skip(1), id)
    }
}

/// The index of the first pane with the number, or the length.
pub open spec fn pane_index(panes: Seq<PaneModel>, id: u64) -> int
    decreases panes.len(),
{
    if panes.len() == 0 || panes[0].id == id {
        0
    } else {
        1 + pane_index(panes.skip(1), id)
    }
}

impl WorkspaceModel {
    /// Whether every number was given out once: no two tabs share one, no two
    /// panes do, and none is greater than the last.
    pub open spec fn ids_distinct(self) -> bool {
        &&& forall|i: int|
            0 <= i < self.tabs.len() ==> (#[trigger] self.tabs[i]).id <= self.next_id
        &&& forall|i: int, a: int|
            0 <= i < self.tabs.len() && 0 <= a < self.tabs[i].panes.len() ==> (
            #[trigger] self.tabs[i].panes[a]).id <= self.next_id
        &&& forall|i: int, j: int|
            #![trigger self.tabs[i], self.tabs[j]]
            0 <= i < j < self.tabs.len() ==> self.tabs[i].id != self.tabs[j].id
        &&& forall|i: int, a: int, j: int, b: int|
            #![trigger self.tabs[i].panes[a], self.tabs[j].panes[b]]
            0 <= i < self.tabs.len() && 0 <= a < self.tabs[i].panes.len() && 0 <= j
                < self.tabs.len() && 0 <= b < self.tabs[j].panes.len() && (i != j || a != b)
                ==> self.tabs[i].panes[a].id != self.tabs[j].panes[b].id
    }

    /// Whether every tab is, whether a tab is active unless there is none, and
    /// whether every number was given out once.
    pub open spec fn well_formed(self) -> bool {
        &&& self.active < self.tabs.len() || (self.tabs.len() == 0 && self.active == 0)
        &&& forall|i: int| 0 <= i < self.tabs.len() ==> (#[trigger] self.tabs[i]).well_formed()
        &&& self.ids_distinct()
    }

    /// The pane with the keyboard, if there is a tab.
    pub open spec fn current(self) -> Option<PaneModel> {
        if self.active < self.tabs.len() {
            Some(self.tabs[self.active as int].current())
        } else {
            None
        }
    }

    /// Where the pane is: the index of its tab, and its index there.
    pub open spec fn place(self, tab_id: u64, pane_id: u64) -> Option<(int, int)> {
        let i = tab_index(self.tabs, tab_id);
        if i < self.tabs.len() && pane_index(self.tabs[i].panes, pane_id)
            < self.tabs[i].panes.len() {
            Some((i, pane_index(self.tabs[i].panes, pane_id)))
        } else {
            None
        }
    }

    /// The workspace with one more tab, which is active then.
    pub open spec fn with_tab(self, pane: PaneModel) -> WorkspaceModel {
        WorkspaceModel {
            tabs: self.tabs.push(tab_of(pane)),
            active: self.tabs.len() as usize,
            next_id: pane.id,
        }
    }

    /// The workspace without a tab.
    pub open spec fn without_tab(self, i: int) -> WorkspaceModel {
        if i < self.tabs.len() {
            let next = if self.active > i {
                self.active - 1
            } else {
                self.active as int
            };
            WorkspaceModel {
                tabs: self.tabs.remove(i),
                active: last_or(next, self.tabs.len() - 1),
                ..self
            }
        } else {
            self
        }
    }

    /// The workspace with one tab alone.
    pub open spec fn only_tab(self, keep: int) -> WorkspaceModel {
        if keep < self.tabs.len() {
            WorkspaceModel { tabs: seq![self.tabs[keep]], active: 0, ..self }
        } else {
            self
        }
    }

    /// The workspace without the tabs whose sessions have all ended.
    pub open spec fn without_ended(self) -> WorkspaceModel {
        let kept = running(self.tabs);
        WorkspaceModel { tabs: kept, active: last_or(self.active as int, kept.len() as int), ..self }
    }
}

/// The index itself, or that of the last of `len` where it is beyond.
pub open spec fn last_or(i: int, len: int) -> usize {
    (if len <= 0 {
        0
    } else if i < len {
        i
    } else {
        len - 1
    }) as usize
}

/// The tabs that have a session that has not ended.
pub open spec fn running(tabs: Seq<TabModel>) -> Seq<TabModel>
    decreases tabs.len(),
{
    if tabs.len() == 0 {
        Seq::empty()
    } else if tabs.last().ended() {
        running(tabs.drop_last())
    } else {
        running(tabs.drop_last()).push(tabs.last())
    }
}

/// A tab with one pane.
pub open spec fn tab_of(pane: PaneModel) -> TabModel {
    TabModel {
        id: pane.id,
        panes: seq![pane],
        focused: 0,
        layout: Layout::Leaf(0),
        seen_output: 0,
    }
}

/// A pane whose connection is being made.
pub open spec fn pending_pane(id: u64, kind: KindModel) -> PaneModel {
    PaneModel {
        id,
        kind,
        link: SessionStatus::Detached,
        pending: true,
        remote: false,
        received: 0,
        bell: false,
    }
}

/// A pane in which nothing runs.
pub open spec fn detached_pane(id: u64, kind: KindModel) -> PaneModel {
    PaneModel { pending: false, ..pending_pane(id, kind) }
}

/// A pane in which a session has just started.
pub open spec fn live_pane(id: u64, kind: KindModel, remote: bool) -> PaneModel {
    PaneModel { pending: false, link: SessionStatus::Live, remote, ..pending_pane(id, kind) }
}

impl Pane {
    /// A pane whose connection is being made.
    pub fn pending(id: u64, kind: SessionKind) -> (out: Pane)
        ensures
            out@ == pending_pane(id, kind@),
    {
        Pane {
            id,
            kind,
            link: SessionStatus::Detached,
            pending: true,
            remote: false,
            received: 0,
            bell: false,
        }
    }

    /// A pane in which nothing runs.
    pub fn detached(id: u64, kind: SessionKind) -> (out: Pane)
        ensures
            out@ == detached_pane(id, kind@),
    {
        Pane {
            id,
            kind,
            link: SessionStatus::Detached,
            pending: false,
            remote: false,
            received: 0,
            bell: false,
        }
    }

    /// A pane in which a session has just started.
    pub fn live(id: u64, kind: SessionKind, remote: bool) -> (out: Pane)
        ensures
            out@ == live_pane(id, kind@, remote),
    {
        Pane {
            id,
            kind,
            link: SessionStatus::Live,
            pending: false,
            remote,
            received: 0,
            bell: false,
        }
    }
}

pub(crate) proof fn lemma_one_pane(pane: PaneModel)
    ensures
        tab_of(pane).well_formed(),
{
    let leaf = Layout::Leaf(0);
    assert forall|i: int|
        #![trigger leaf.occurs(i)]
        leaf.occurs(i) == crate::layout::once(0 <= i < 1) by {}
}

/// A list of tabs that were all there before, each once, keeps its numbers
/// apart. `from` says which tab each one was.
pub(crate) proof fn lemma_selection_keeps_ids(
    before: WorkspaceModel,
    after: WorkspaceModel,
    from: Seq<int>,
)
    requires
        before.ids_distinct(),
        after.next_id >= before.next_id,
        from.len() == after.tabs.len(),
        forall|k: int|
            0 <= k < from.len() ==> 0 <= #[trigger] from[k] < before.tabs.len() && after.tabs[k]
                == before.tabs[from[k]],
        forall|k: int, l: int|
            #![trigger from[k], from[l]]
            0 <= k < l < from.len() ==> from[k] < from[l],
    ensures
        after.ids_distinct(),
{
    assert forall|i: int|
        0 <= i < after.tabs.len() implies (#[trigger] after.tabs[i]).id <= after.next_id by {
        assert(0 <= from[i] < before.tabs.len());
        assert(before.tabs[from[i]].id <= before.next_id);
    }
    assert forall|i: int, a: int|
        0 <= i < after.tabs.len() && 0 <= a < after.tabs[i].panes.len() implies (
    #[trigger] after.tabs[i].panes[a]).id <= after.next_id by {
        assert(0 <= from[i] < before.tabs.len());
        assert(before.tabs[from[i]].panes[a].id <= before.next_id);
    }
    assert forall|i: int, j: int|
        #![trigger after.tabs[i], after.tabs[j]]
        0 <= i < j < after.tabs.len() implies after.tabs[i].id != after.tabs[j].id by {
        assert(from[i] < from[j]);
        assert(before.tabs[from[i]].id != before.tabs[from[j]].id);
    }
    assert forall|i: int, a: int, j: int, b: int|
        #![trigger after.tabs[i].panes[a], after.tabs[j].panes[b]]
        0 <= i < after.tabs.len() && 0 <= a < after.tabs[i].panes.len() && 0 <= j
            < after.tabs.len() && 0 <= b < after.tabs[j].panes.len() && (i != j || a
            != b) implies after.tabs[i].panes[a].id != after.tabs[j].panes[b].id by {
        assert(0 <= from[i] < before.tabs.len());
        assert(0 <= from[j] < before.tabs.len());
        if i < j {
            assert(from[i] < from[j]);
        } else if j < i {
            assert(from[j] < from[i]);
        }
        assert(before.tabs[from[i]].panes[a].id != before.tabs[from[j]].panes[b].id);
    }
}

/// One more tab, with a number that was not given out before.
pub(crate) proof fn lemma_with_tab(w: WorkspaceModel, pane: PaneModel)
    requires
        w.well_formed(),
        pane.id > w.next_id,
        w.tabs.len() < usize::MAX,
    ensures
        w.with_tab(pane).well_formed(),
{
    let after = w.with_tab(pane);
    lemma_one_pane(pane);
    assert forall|i: int| 0 <= i < after.tabs.len() implies (
    #[trigger] after.tabs[i]).well_formed() by {
        if i < w.tabs.len() {
            assert(after.tabs[i] == w.tabs[i]);
        }
    }
    assert forall|i: int| 0 <= i < after.tabs.len() implies (#[trigger] after.tabs[i]).id
        <= after.next_id by {
        if i < w.tabs.len() {
            assert(after.tabs[i] == w.tabs[i]);
        }
    }
    assert forall|i: int, a: int|
        0 <= i < after.tabs.len() && 0 <= a < after.tabs[i].panes.len() implies (
    #[trigger] after.tabs[i].panes[a]).id <= after.next_id by {
        if i < w.tabs.len() {
            assert(after.tabs[i] == w.tabs[i]);
            assert(w.tabs[i].panes[a].id <= w.next_id);
        }
    }
    assert forall|i: int, j: int|
        #![trigger after.tabs[i], after.tabs[j]]
        0 <= i < j < after.tabs.len() implies after.tabs[i].id != after.tabs[j].id by {
        assert(after.tabs[i] == w.tabs[i]);
        assert(w.tabs[i].id <= w.next_id);
        if j < w.tabs.len() {
            assert(after.tabs[j] == w.tabs[j]);
        }
    }
    assert forall|i: int, a: int, j: int, b: int|
        #![trigger after.tabs[i].panes[a], after.tabs[j].panes[b]]
        0 <= i < after.tabs.len() && 0 <= a < after.tabs[i].panes.len() && 0 <= j
            < after.tabs.len() && 0 <= b < after.tabs[j].panes.len() && (i != j || a
            != b) implies after.tabs[i].panes[a].id != after.tabs[j].panes[b].id by {
        if i < w.tabs.len() {
            assert(after.tabs[i] == w.tabs[i]);
            assert(w.tabs[i].panes[a].id <= w.next_id);
        }
        if j < w.tabs.len() {
            assert(after.tabs[j] == w.tabs[j]);
            assert(w.tabs[j].panes[b].id <= w.next_id);
        }
    }
}

/// Which tabs are left when those that have ended go.
spec fn running_from(tabs: Seq<TabModel>) -> Seq<int>
    decreases tabs.len(),
{
    if tabs.len() == 0 {
        Seq::empty()
    } else if tabs.last().ended() {
        running_from(tabs.drop_last())
    } else {
        running_from(tabs.drop_last()).push(tabs.len() - 1)
    }
}

proof fn lemma_running_from(tabs: Seq<TabModel>)
    ensures
        running_from(tabs).len() == running(tabs).len(),
        running(tabs).len() <= tabs.len(),
        forall|k: int|
            0 <= k < running_from(tabs).len() ==> 0 <= #[trigger] running_from(tabs)[k]
                < tabs.len() && running(tabs)[k] == tabs[running_from(tabs)[k]],
        forall|k: int, l: int|
            #![trigger running_from(tabs)[k], running_from(tabs)[l]]
            0 <= k < l < running_from(tabs).len() ==> running_from(tabs)[k]
                < running_from(tabs)[l],
    decreases tabs.len(),
{
    if tabs.len() > 0 {
        let rest = tabs.drop_last();
        lemma_running_from(rest);
        let f = running_from(tabs);
        let g = running_from(rest);
        assert forall|k: int| 0 <= k < f.len() implies 0 <= #[trigger] f[k] < tabs.len()
            && running(tabs)[k] == tabs[f[k]] by {
            if k < g.len() {
                assert(f[k] == g[k]);
                assert(running(tabs)[k] == running(rest)[k]);
            }
        }
        assert forall|k: int, l: int|
            #![trigger f[k], f[l]]
            0 <= k < l < f.len() implies f[k] < f[l] by {
            assert(f[k] == g[k]);
            if l < g.len() {
                assert(f[l] == g[l]);
            }
        }
    }
}

/// Closing a tab keeps the workspace well formed.
pub proof fn law_closing_a_tab_keeps_order(w: WorkspaceModel, i: int)
    requires
        w.well_formed(),
        0 <= i,
    ensures
        w.without_tab(i).well_formed(),
{
    if i < w.tabs.len() {
        let after = w.without_tab(i);
        let from = Seq::new(
            after.tabs.len(),
            |k: int|
                if k < i {
                    k
                } else {
                    k + 1
                },
        );
        lemma_selection_keeps_ids(w, after, from);
        assert forall|k: int| 0 <= k < after.tabs.len() implies (
        #[trigger] after.tabs[k]).well_formed() by {
            assert(after.tabs[k] == w.tabs[from[k]]);
        }
    }
}

/// Closing all other tabs keeps the workspace well formed.
pub proof fn law_closing_the_others_keeps_order(w: WorkspaceModel, keep: int)
    requires
        w.well_formed(),
        0 <= keep,
    ensures
        w.only_tab(keep).well_formed(),
{
    if keep < w.tabs.len() {
        let after = w.only_tab(keep);
        lemma_selection_keeps_ids(w, after, seq![keep]);
    }
}

/// Closing the tabs that have ended keeps the workspace well formed, and closes
/// no tab with a session that runs or is about to.
pub proof fn law_closing_the_ended_keeps_order(w: WorkspaceModel)
    requires
        w.well_formed(),
    ensures
        w.without_ended().well_formed(),
        forall|i: int|
            0 <= i < w.tabs.len() && !(#[trigger] w.tabs[i]).ended()
                ==> w.without_ended().tabs.contains(w.tabs[i]),
{
    let after = w.without_ended();
    lemma_running_from(w.tabs);
    let from = running_from(w.tabs);
    lemma_selection_keeps_ids(w, after, from);
    assert forall|k: int| 0 <= k < after.tabs.len() implies (
    #[trigger] after.tabs[k]).well_formed() by {
        assert(0 <= from[k] < w.tabs.len());
        assert(after.tabs[k] == w.tabs[from[k]]);
    }
    assert forall|i: int|
        0 <= i < w.tabs.len() && !(#[trigger] w.tabs[i]).ended() implies after.tabs.contains(
        w.tabs[i],
    ) by {
        lemma_running_keeps(w.tabs, i);
    }
}

proof fn lemma_running_keeps(tabs: Seq<TabModel>, i: int)
    requires
        0 <= i < tabs.len(),
        !tabs[i].ended(),
    ensures
        running(tabs).contains(tabs[i]),
    decreases tabs.len(),
{
    let rest = tabs.drop_last();
    let before = running(rest);
    if i < rest.len() {
        lemma_running_keeps(rest, i);
        let j = choose|j: int| 0 <= j < before.len() && before[j] == tabs[i];
        assert(before.push(tabs.last())[j] == tabs[i]);
    } else {
        assert(before.push(tabs[i])[before.len() as int] == tabs[i]);
    }
}

impl Tab {
    /// Whether every session of the tab has ended.
    pub fn has_ended(&self) -> (yes: bool)
        ensures
            yes == self@.ended(),
    {
        let n: usize = self.panes.len();
        let mut i: usize = 0;
        while i < n
            invariant
                i <= n,
                n == self.panes@.len(),
                forall|k: int| 0 <= k < i ==> (#[trigger] self@.panes[k]).ended(),
            decreases n - i,
        {
            assert(self@.panes[i as int] == self.panes@[i as int]@);
            if self.panes[i].pending || self.panes[i].link != SessionStatus::Detached {
                return false;
            }
            i += 1;
        }
        true
    }

    /// The bytes received by the panes of the tab.
    pub fn output(&self) -> (out: u64)
        requires
            self@.output() <= u64::MAX,
        ensures
            out == self@.output(),
    {
        let n: usize = self.panes.len();
        let mut sum: u64 = 0;
        let mut i: usize = 0;
        while i < n
            invariant
                i <= n,
                n == self.panes@.len(),
                sum == self@.received(i as int),
                self@.output() <= u64::MAX,
            decreases n - i,
        {
            proof {
                lemma_received_grows(self@, i + 1, n as int);
                assert(self@.panes[i as int] == self.panes@[i as int]@);
            }
            sum = sum + self.panes[i].received;
            i += 1;
        }
        sum
    }

    /// Whether the tab holds output that nobody has looked at yet. The active
    /// tab is being looked at by definition, so it is never marked.
    pub fn updated(&self, active: bool) -> (yes: bool)
        requires
            !active ==> self@.output() <= u64::MAX,
        ensures
            yes == self@.updated(active),
    {
        !active && self.output() > self.seen_output
    }

    /// The state of the least healthy pane.
    pub fn link(&self) -> (out: SessionStatus)
        ensures
            out == self@.link(),
    {
        let n: usize = self.panes.len();
        let mut worst = SessionStatus::Live;
        let mut i: usize = 0;
        while i < n
            invariant
                i <= n,
                n == self.panes@.len(),
                worst != SessionStatus::Lost,
                worst == SessionStatus::Detached <==> exists|k: int|
                    0 <= k < i && (#[trigger] self@.panes[k]).link == SessionStatus::Detached,
                forall|k: int|
                    0 <= k < i ==> (#[trigger] self@.panes[k]).link != SessionStatus::Lost,
            decreases n - i,
        {
            assert(self@.panes[i as int] == self.panes@[i as int]@);
            match self.panes[i].link {
                SessionStatus::Lost => {
                    return SessionStatus::Lost;
                },
                SessionStatus::Detached => {
                    worst = SessionStatus::Detached;
                },
                SessionStatus::Live => {},
            }
            i += 1;
        }
        worst
    }
}

pub(crate) proof fn lemma_received_grows(t: TabModel, a: int, b: int)
    requires
        a <= b,
    ensures
        t.received(a) <= t.received(b),
    decreases b - a,
{
    if a < b {
        lemma_received_grows(t, a, b - 1);
    }
}

impl Workspace {
    /// No tab is open.
    pub fn new() -> (out: Workspace)
        ensures
            out@ == (WorkspaceModel { tabs: Seq::empty(), active: 0, next_id: 0 }),
            out@.well_formed(),
    {
        let out = Workspace { tabs: Vec::new(), active: 0, next_id: 0 };
        assert(out@ =~= WorkspaceModel { tabs: Seq::empty(), active: 0, next_id: 0 });
        out
    }

    /// Puts a tab on the screen before its connection is attempted, so that what
    /// becomes of it has a console of its own. Gives the numbers of the tab and
    /// its pane.
    pub fn open_connecting_tab(&mut self, kind: SessionKind) -> (ids: (u64, u64))
        requires
            old(self)@.well_formed(),
            old(self)@.next_id < u64::MAX,
            old(self)@.tabs.len() < usize::MAX,
        ensures
            final(self)@ == old(self)@.with_tab(
                pending_pane((old(self)@.next_id + 1) as u64, kind@),
            ),
            final(self)@.well_formed(),
            ids == ((old(self)@.next_id + 1) as u64, (old(self)@.next_id + 1) as u64),
    {
        let id: u64 = self.next_id + 1;
        self.push_tab(Pane::pending(id, kind));
        (id, id)
    }

    /// Adds a tab with one pane, which has the keyboard then.
    pub(crate) fn push_tab(&mut self, pane: Pane)
        requires
            old(self)@.well_formed(),
            pane.id > old(self)@.next_id,
            old(self)@.tabs.len() < usize::MAX,
        ensures
            final(self)@ == old(self)@.with_tab(pane@),
            final(self)@.well_formed(),
    {
        let ghost before = self@;
        let ghost list = self.tabs@;
        let id: u64 = pane.id;
        let mut panes: Vec<Pane> = Vec::new();
        panes.push(pane);
        assert(pane_models(panes@) =~= seq![pane@]);
        let tab = Tab { id, panes, focused: 0, layout: Layout::Leaf(0), seen_output: 0 };
        assert(tab@ =~= tab_of(pane@));
        self.tabs.push(tab);
        self.active = self.tabs.len() - 1;
        self.next_id = id;
        assert(tab_models(self.tabs@) =~= tab_models(list).push(tab@));
        assert(self@ =~= before.with_tab(pane@));
        proof {
            lemma_with_tab(before, pane@);
        }
    }

    /// Closes a tab.
    pub fn close_tab(&mut self, i: usize)
        requires
            old(self)@.well_formed(),
        ensures
            final(self)@ == old(self)@.without_tab(i as int),
            final(self)@.well_formed(),
    {
        let ghost before = self@;
        let ghost list = self.tabs@;
        proof {
            law_closing_a_tab_keeps_order(before, i as int);
        }
        if i < self.tabs.len() {
            self.tabs.remove(i);
            if self.active > i {
                self.active = self.active - 1;
            }
            let n: usize = self.tabs.len();
            if self.active >= n {
                self.active = if n == 0 {
                    0
                } else {
                    n - 1
                };
            }
            assert(tab_models(self.tabs@) =~= tab_models(list).remove(i as int));
        }
        assert(self@ =~= before.without_tab(i as int));
    }

    /// Closes every tab except one.
    pub fn close_other_tabs(&mut self, keep: usize)
        requires
            old(self)@.well_formed(),
        ensures
            final(self)@ == old(self)@.only_tab(keep as int),
            final(self)@.well_formed(),
    {
        let ghost before = self@;
        proof {
            law_closing_the_others_keeps_order(before, keep as int);
        }
        if keep < self.tabs.len() {
            let kept: Tab = self.tabs.remove(keep);
            let mut tabs: Vec<Tab> = Vec::new();
            tabs.push(kept);
            self.tabs = tabs;
            self.active = 0;
            assert(tab_models(self.tabs@) =~= seq![kept@]);
        }
        assert(self@ =~= before.only_tab(keep as int));
    }

    /// Closes every tab whose sessions have all ended.
    pub fn close_disconnected_tabs(&mut self)
        requires
            old(self)@.well_formed(),
        ensures
            final(self)@ == old(self)@.without_ended(),
            final(self)@.well_formed(),
    {
        let ghost before = self@;
        proof {
            law_closing_the_ended_keeps_order(before);
            lemma_running_from(before.tabs);
        }
        let mut kept: Vec<Tab> = Vec::new();
        let mut tabs: Vec<Tab> = Vec::new();
        tabs.append(&mut self.tabs);
        let ghost all = tab_models(tabs@);
        let ghost source = tabs@;
        assert(all.take(0) =~= Seq::<TabModel>::empty());
        assert(tab_models(kept@) =~= Seq::<TabModel>::empty());
        for tab in it: tabs
            invariant
                it.seq() == source,
                all == tab_models(source),
                tab_models(kept@) == running(all.take(it.index() as int)),
        {
            let ghost k = it.index() as int;
            assert(all.take(k + 1).drop_last() =~= all.take(k));
            assert(all.take(k + 1).last() == tab@);
            if !tab.has_ended() {
                let ghost was = kept@;
                kept.push(tab);
                assert(tab_models(kept@) =~= tab_models(was).push(tab@));
            }
        }
        assert(all.take(all.len() as int) =~= all);
        let n: usize = kept.len();
        self.tabs = kept;
        assert(all =~= before.tabs);
        if self.active >= n {
            self.active = if n == 0 {
                0
            } else {
                n - 1
            };
        }
        assert(self@ =~= before.without_ended());
    }
}

/// The three states in which a pane starts: while its connection is being made, with
/// nothing running in it, and with a session that has just started. Nothing was received
/// in any of them, and none has rung.
pub proof fn law_the_states_of_a_fresh_pane(id: u64, kind: KindModel, remote: bool)
    ensures
        pending_pane(id, kind) == (PaneModel {
            id,
            kind,
            link: SessionStatus::Detached,
            pending: true,
            remote: false,
            received: 0,
            bell: false,
        }),
        detached_pane(id, kind) == (PaneModel {
            id,
            kind,
            link: SessionStatus::Detached,
            pending: false,
            remote: false,
            received: 0,
            bell: false,
        }),
        live_pane(id, kind, remote) == (PaneModel {
            id,
            kind,
            link: SessionStatus::Live,
            pending: false,
            remote,
            received: 0,
            bell: false,
        }),
        detached_pane(id, kind).ended() && !detached_pane(id, kind).busy(),
        pending_pane(id, kind).busy() && !pending_pane(id, kind).ended(),
        live_pane(id, kind, remote).busy() && !live_pane(id, kind, remote).ended(),
{
}

/// A new tab stands behind the others and comes to the front, with the one pane that it
/// has; every other tab stays as it is.
pub proof fn law_a_new_tab_comes_last(w: WorkspaceModel, pane: PaneModel, k: int)
    requires
        w.tabs.len() <= usize::MAX,
    ensures
        ({
            let after = w.with_tab(pane);
            let t = after.tabs[w.tabs.len() as int];
            &&& after.tabs.len() == w.tabs.len() + 1
            &&& after.active == w.tabs.len()
            &&& after.next_id == pane.id
            &&& 0 <= k < w.tabs.len() ==> after.tabs[k] == w.tabs[k]
            &&& t.panes == seq![pane] && t.focused == 0 && t.id == pane.id
            &&& t.layout == Layout::Leaf(0) && t.seen_output == 0
        }),
{
}

/// Closing a tab leaves the others in their order, and the one that was in front stays
/// there; where that one is closed, the next takes its place, or the last where there is
/// none behind it.
pub proof fn law_closing_a_tab_keeps_the_others(w: WorkspaceModel, i: int, k: int)
    requires
        w.active < w.tabs.len() <= usize::MAX,
        0 <= i < w.tabs.len(),
    ensures
        ({
            let after = w.without_tab(i);
            &&& after.tabs.len() == w.tabs.len() - 1
            &&& after.next_id == w.next_id
            &&& 0 <= k < i ==> after.tabs[k] == w.tabs[k]
            &&& i <= k < after.tabs.len() ==> after.tabs[k] == w.tabs[k + 1]
            &&& i < w.active ==> after.active == w.active - 1
            &&& i > w.active ==> after.active == w.active
            &&& i == w.active && i + 1 < w.tabs.len() ==> after.active == i
            &&& i == w.active && i + 1 == w.tabs.len() && i > 0 ==> after.active == i - 1
            &&& w.tabs.len() == 1 ==> after.active == 0
        }),
{
}

/// Closing the other tabs leaves the one alone, in front and as it was.
pub proof fn law_closing_the_others_leaves_one(w: WorkspaceModel, keep: int)
    ensures
        0 <= keep < w.tabs.len() ==> w.only_tab(keep) == (WorkspaceModel {
            tabs: seq![w.tabs[keep]],
            active: 0,
            next_id: w.next_id,
        }),
        keep >= w.tabs.len() ==> w.only_tab(keep) == w,
{
}

/// Whether something in a tab runs, was lost, or is about to run.
pub open spec fn unfinished() -> spec_fn(TabModel) -> bool {
    |t: TabModel|
        exists|a: int|
            0 <= a < t.panes.len() && ((#[trigger] t.panes[a]).pending || t.panes[a].link
                != SessionStatus::Detached)
}

/// Closing the tabs that have ended closes exactly those in which no session runs, was
/// lost or is about to run, and leaves the others in their order.
pub proof fn law_exactly_the_ended_are_closed(w: WorkspaceModel)
    requires
        w.tabs.len() <= usize::MAX,
    ensures
        w.without_ended().tabs == w.tabs.filter(unfinished()),
        w.without_ended().next_id == w.next_id,
        w.active < w.without_ended().tabs.len() ==> w.without_ended().active == w.active,
        w.without_ended().tabs.len() > 0 && w.active >= w.without_ended().tabs.len()
            ==> w.without_ended().active == w.without_ended().tabs.len() - 1,
        w.without_ended().tabs.len() == 0 ==> w.without_ended().active == 0,
{
    lemma_running_filters(w.tabs);
}

proof fn lemma_running_filters(tabs: Seq<TabModel>)
    ensures
        running(tabs) == tabs.filter(unfinished()),
        running(tabs).len() <= tabs.len(),
    decreases tabs.len(),
{
    reveal(Seq::filter);
    if tabs.len() > 0 {
        lemma_running_filters(tabs.drop_last());
        let t = tabs.last();
        assert(unfinished()(t) == !t.ended()) by {
            if !t.ended() {
                let a = choose|a: int|
                    0 <= a < t.panes.len() && !(#[trigger] t.panes[a]).ended();
                assert(t.panes[a].pending || t.panes[a].link != SessionStatus::Detached);
            }
            if unfinished()(t) {
                let a = choose|a: int|
                    0 <= a < t.panes.len() && ((#[trigger] t.panes[a]).pending || t.panes[a].link
                        != SessionStatus::Detached);
                assert(!t.panes[a].ended());
            }
        }
    }
}

/// The mark of a tab goes by its worst pane: one that was lost counts before one that
/// ended, and that before one that runs.
pub proof fn law_the_worst_pane_marks_the_tab(t: TabModel, pane: PaneModel)
    ensures
        ({
            let more = TabModel { panes: t.panes.push(pane), ..t };
            &&& (TabModel { panes: Seq::empty(), ..t }).link() == SessionStatus::Live
            &&& more.link() == (if t.link() == SessionStatus::Lost || pane.link
                == SessionStatus::Lost {
                SessionStatus::Lost
            } else if t.link() == SessionStatus::Detached || pane.link == SessionStatus::Detached {
                SessionStatus::Detached
            } else {
                SessionStatus::Live
            })
        }),
{
    let more = TabModel { panes: t.panes.push(pane), ..t };
    let n = t.panes.len() as int;
    assert(more.panes[n] == pane);
    if exists|i: int| 0 <= i < n && (#[trigger] t.panes[i]).link == SessionStatus::Lost {
        let i = choose|i: int| 0 <= i < n && (#[trigger] t.panes[i]).link == SessionStatus::Lost;
        assert(more.panes[i].link == SessionStatus::Lost);
    }
    if exists|i: int| 0 <= i < n && (#[trigger] t.panes[i]).link == SessionStatus::Detached {
        let i = choose|i: int|
            0 <= i < n && (#[trigger] t.panes[i]).link == SessionStatus::Detached;
        assert(more.panes[i].link == SessionStatus::Detached);
    }
    assert forall|i: int| 0 <= i < n implies (#[trigger] more.panes[i]) == t.panes[i] by {}
}

/// The output of a tab is what its panes have received together, and the tab is marked
/// where it is in the background and that is more than was seen.
pub proof fn law_output_adds_up(t: TabModel, pane: PaneModel, active: bool)
    ensures
        ({
            let more = TabModel { panes: t.panes.push(pane), ..t };
            &&& (TabModel { panes: Seq::empty(), ..t }).output() == 0
            &&& more.output() == t.output() + pane.received
            &&& t.updated(active) == (!active && t.output() > t.seen_output)
        }),
{
    let more = TabModel { panes: t.panes.push(pane), ..t };
    lemma_received_of_more(t, pane, t.panes.len() as int);
    assert(more.panes[t.panes.len() as int] == pane);
}

proof fn lemma_received_of_more(t: TabModel, pane: PaneModel, n: int)
    requires
        n <= t.panes.len(),
    ensures
        (TabModel { panes: t.panes.push(pane), ..t }).received(n) == t.received(n),
    decreases n,
{
    if n > 0 {
        lemma_received_of_more(t, pane, n - 1);
    }
}

/// A tab can have 32 panes, and 32 tabs come back at a start.
pub proof fn law_how_much_can_be_open()
    ensures
        MAX_PANES == 32,
        MAX_RESTORED == 32,
{
}

/// The models of panes, tabs and the workspace hold each of their fields.
pub proof fn law_models_hold_the_workspace(p: Pane, t: Tab, w: Workspace, i: int)
    ensures
        p@.id == p.id && p@.kind == p.kind@ && p@.link == p.link && p@.pending == p.pending,
        p@.remote == p.remote && p@.received == p.received && p@.bell == p.bell,
        t@.id == t.id && t@.focused == t.focused && t@.layout == t.layout,
        t@.seen_output == t.seen_output && t@.panes.len() == t.panes@.len(),
        0 <= i < t.panes@.len() ==> t@.panes[i] == t.panes@[i]@,
        w@.active == w.active && w@.next_id == w.next_id && w@.tabs.len() == w.tabs@.len(),
        0 <= i < w.tabs@.len() ==> w@.tabs[i] == w.tabs@[i]@,
{
}

} // verus!
