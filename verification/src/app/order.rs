//! What every action keeps in order.

use crate::app::{ActionModel, AppModel};
use crate::layout::{law_remove_keeps_layouts_valid, law_split_keeps_layouts_valid, Axis};
use crate::workspace::panes::{
    law_closing_a_pane_keeps_order, law_connections_keep_order, law_splitting_keeps_order,
    lemma_place,
};
use crate::workspace::{
    law_closing_a_tab_keeps_order, law_closing_the_ended_keeps_order,
    law_closing_the_others_keeps_order, lemma_one_pane, lemma_with_tab, pending_pane, running,
    PaneModel, TabModel, WorkspaceModel, MAX_PANES,
};
use vstd::prelude::*;

verus! {

/// The terminal once one action after the other was done.
pub open spec fn executed_all(app: AppModel, actions: Seq<ActionModel>) -> AppModel
    decreases actions.len(),
{
    if actions.len() == 0 {
        app
    } else {
        executed_all(app, actions.drop_last()).executed(actions.last())
    }
}

/// Whether every tab is in shape: it has between one pane and the most that a tab
/// can have, one of them with the keyboard, and a layout that shows each of them
/// once. The active tab is one that is open, unless none is.
pub open spec fn in_shape(w: WorkspaceModel) -> bool {
    &&& w.active < w.tabs.len() || (w.tabs.len() == 0 && w.active == 0)
    &&& forall|i: int|
        0 <= i < w.tabs.len() ==> 1 <= (#[trigger] w.tabs[i]).panes.len() <= MAX_PANES
            && w.tabs[i].focused < w.tabs[i].panes.len() && w.tabs[i].layout.well_formed(
            w.tabs[i].panes.len() as int,
        )
}

/// Whether a split is asked for only while the active tab has room, and keeps
/// the tabs in shape whatever the new pane.
pub open spec fn split_stops(app: AppModel, axis: Axis) -> bool {
    &&& forall|macos: bool| #[trigger]
        app.effect(ActionModel::Split(axis), macos) is SplitSession ==> app.workspace.can_split()
    &&& forall|pane: PaneModel|
        app.workspace.can_split() ==> in_shape(#[trigger] app.workspace.after_split(axis, pane))
}

proof fn lemma_running_in_shape(tabs: Seq<TabModel>)
    requires
        forall|i: int| 0 <= i < tabs.len() ==> (#[trigger] tabs[i]).well_formed(),
    ensures
        forall|i: int|
            0 <= i < running(tabs).len() ==> (#[trigger] running(tabs)[i]).well_formed(),
        running(tabs).len() <= tabs.len(),
    decreases tabs.len(),
{
    if tabs.len() > 0 {
        let rest = tabs.drop_last();
        assert forall|i: int| 0 <= i < rest.len() implies (#[trigger] rest[i]).well_formed() by {
            assert(rest[i] == tabs[i]);
        }
        lemma_running_in_shape(rest);
        assert(tabs[tabs.len() - 1].well_formed());
    }
}

proof fn lemma_with_tab_in_shape(w: WorkspaceModel, pane: PaneModel)
    requires
        in_shape(w),
        w.tabs.len() <= usize::MAX,
    ensures
        in_shape(w.with_tab(pane)),
{
    let after = w.with_tab(pane);
    lemma_one_pane(pane);
    assert forall|i: int| 0 <= i < after.tabs.len() implies (
    #[trigger] after.tabs[i]).well_formed() by {
        if i < w.tabs.len() {
            assert(after.tabs[i] == w.tabs[i]);
        }
    }
}

/// Whatever the action, every tab stays in shape, whatever numbers the tabs and
/// the panes have: splitting stops at the most panes, closing the last pane of a
/// tab closes the tab, and a tab that is not there is left alone.
pub proof fn law_every_action_keeps_the_tabs_in_shape(app: AppModel, action: ActionModel)
    requires
        in_shape(app.workspace),
        app.workspace.tabs.len() <= usize::MAX,
    ensures
        in_shape(app.executed(action).workspace),
        match action {
            ActionModel::Split(axis) => split_stops(app, axis),
            ActionModel::ClosePane => app.workspace.active < app.workspace.tabs.len()
                && app.workspace.tabs[app.workspace.active as int].panes.len() == 1
                ==> app.executed(action).workspace.tabs == app.workspace.tabs.remove(
                app.workspace.active as int,
            ),
            ActionModel::CloseTab(i) | ActionModel::CloseOtherTabs(i)
            | ActionModel::DuplicateSession(i) => i >= app.workspace.tabs.len() ==> app.executed(
                action,
            ).workspace == app.workspace,
            _ => true,
        },
{
    let w = app.workspace;
    let id = (w.next_id + 1) as u64;
    assert forall|i: int| 0 <= i < w.tabs.len() implies (#[trigger] w.tabs[i]).well_formed() by {}
    match action {
        ActionModel::Split(axis) => {
            assert forall|pane: PaneModel| w.can_split() implies in_shape(
                #[trigger] w.after_split(axis, pane),
            ) by {
                let i = w.active as int;
                let t = w.tabs[i];
                let n = t.panes.len() as usize;
                law_split_keeps_layouts_valid(t.layout, t.panes.len(), t.focused, n, axis);
                lemma_exchanged_in_shape(w, i, w.after_split(axis, pane).tabs[i]);
            }
        },
        ActionModel::New(kind) => lemma_with_tab_in_shape(w, pending_pane(id, kind)),
        ActionModel::DuplicateSession(i) => if i < w.tabs.len() {
            lemma_with_tab_in_shape(w, pending_pane(id, w.tabs[i as int].current().kind));
        },
        ActionModel::CloseTab(i) => lemma_without_tab_in_shape(w, i as int),
        ActionModel::CloseDisconnectedTabs => {
            lemma_running_in_shape(w.tabs);
            assert forall|i: int| 0 <= i < running(w.tabs).len() implies (
            #[trigger] w.without_ended().tabs[i]).well_formed() by {
                assert(running(w.tabs)[i].well_formed());
            }
        },
        ActionModel::ClosePane => if w.active < w.tabs.len() {
            let i = w.active as int;
            let t = w.tabs[i];
            if t.panes.len() > 1 {
                law_remove_keeps_layouts_valid(t.layout, t.panes.len(), t.focused);
                lemma_exchanged_in_shape(w, i, w.without_pane().tabs[i]);
            } else {
                lemma_without_tab_in_shape(w, i);
            }
        },
        ActionModel::Restart | ActionModel::Disconnect => if let Some(pane) = w.current() {
            let tab = w.tabs[w.active as int].id;
            lemma_place(w, tab, pane.id);
            if let Some((i, _)) = w.place(tab, pane.id) {
                lemma_exchanged_in_shape(w, i, w.dropped(tab, pane.id).tabs[i]);
            }
        },
        _ => {},
    }
}

proof fn lemma_without_tab_in_shape(w: WorkspaceModel, i: int)
    requires
        in_shape(w),
        w.tabs.len() <= usize::MAX,
        0 <= i,
    ensures
        in_shape(w.without_tab(i)),
{
    if i < w.tabs.len() {
        let after = w.without_tab(i);
        assert forall|k: int| 0 <= k < after.tabs.len() implies (
        #[trigger] after.tabs[k]).well_formed() by {
            let from = if k < i {
                k
            } else {
                k + 1
            };
            assert(after.tabs[k] == w.tabs[from]);
        }
    }
}

proof fn lemma_exchanged_in_shape(w: WorkspaceModel, i: int, tab: TabModel)
    requires
        in_shape(w),
        0 <= i < w.tabs.len(),
        tab.well_formed(),
    ensures
        in_shape(w.with_tab_at(i, tab)),
{
    let after = w.with_tab_at(i, tab);
    assert forall|k: int| 0 <= k < after.tabs.len() implies (
    #[trigger] after.tabs[k]).well_formed() by {
        if k != i {
            assert(after.tabs[k] == w.tabs[k]);
        }
    }
}

/// Whatever the action, the workspace stays well formed: the active tab is one
/// that is open, every tab has a pane with the keyboard and a layout that shows
/// each of its panes once, and no number is given out twice. At most one tab and
/// one number are new.
pub proof fn law_every_action_keeps_the_workspace(app: AppModel, action: ActionModel)
    requires
        app.well_formed(),
        app.workspace.next_id < u64::MAX,
        app.workspace.tabs.len() < usize::MAX,
    ensures
        app.executed(action).well_formed(),
        app.workspace.next_id <= app.executed(action).workspace.next_id
            <= app.workspace.next_id + 1,
        app.executed(action).workspace.tabs.len() <= app.workspace.tabs.len() + 1,
{
    let w = app.workspace;
    let id = (w.next_id + 1) as u64;
    match action {
        ActionModel::New(kind) => lemma_with_tab(w, pending_pane(id, kind)),
        ActionModel::DuplicateSession(i) => if i < w.tabs.len() {
            lemma_with_tab(w, pending_pane(id, w.tabs[i as int].current().kind));
        },
        ActionModel::CloseTab(i) => law_closing_a_tab_keeps_order(w, i as int),
        ActionModel::CloseOtherTabs(i) => law_closing_the_others_keeps_order(w, i as int),
        ActionModel::CloseDisconnectedTabs => {
            law_closing_the_ended_keeps_order(w);
            lemma_running_in_shape(w.tabs);
        },
        ActionModel::ClosePane => law_closing_a_pane_keeps_order(w),
        ActionModel::Restart | ActionModel::Disconnect => if let Some(pane) = w.current() {
            let tab = w.tabs[w.active as int].id;
            law_connections_keep_order(w, tab, pane.id, pane.kind);
            lemma_place(w, tab, pane.id);
        },
        _ => {},
    }
}

/// Whatever is done, in whatever order, the workspace stays well formed.
pub proof fn law_all_actions_keep_the_workspace(app: AppModel, actions: Seq<ActionModel>)
    requires
        app.well_formed(),
        app.workspace.next_id + actions.len() <= u64::MAX,
        app.workspace.tabs.len() + actions.len() <= usize::MAX,
    ensures
        executed_all(app, actions).well_formed(),
        executed_all(app, actions).workspace.next_id <= app.workspace.next_id + actions.len(),
        executed_all(app, actions).workspace.tabs.len() <= app.workspace.tabs.len()
            + actions.len(),
    decreases actions.len(),
{
    if actions.len() > 0 {
        law_all_actions_keep_the_workspace(app, actions.drop_last());
        law_every_action_keeps_the_workspace(
            executed_all(app, actions.drop_last()),
            actions.last(),
        );
    }
}

/// An action on a tab that is not there does nothing.
pub proof fn law_missing_tabs_are_left_alone(app: AppModel, i: usize, macos: bool)
    requires
        i >= app.workspace.tabs.len(),
    ensures
        app.executed(ActionModel::CloseTab(i)).workspace == app.workspace,
        app.executed(ActionModel::CloseOtherTabs(i)).workspace == app.workspace,
        app.executed(ActionModel::DuplicateSession(i)).workspace == app.workspace,
        app.effect(ActionModel::CloseTab(i), macos) is Nothing,
        app.effect(ActionModel::CloseOtherTabs(i), macos) is Nothing,
        app.effect(ActionModel::DuplicateSession(i), macos) is Nothing,
{
}

/// A split is asked for exactly where the active tab has room for one more pane,
/// and the tab then has one more, within the limit.
pub proof fn law_splitting_stops_at_the_limit(
    app: AppModel,
    axis: Axis,
    macos: bool,
    pane: PaneModel,
)
    requires
        app.well_formed(),
        pane.id > app.workspace.next_id,
    ensures
        app.effect(ActionModel::Split(axis), macos) is SplitSession <==> app.workspace.can_split(),
        !app.workspace.can_split() ==> app.effect(ActionModel::Split(axis), macos) is Nothing,
        app.workspace.can_split() ==> {
            let after = app.workspace.after_split(axis, pane);
            let i = app.workspace.active as int;
            &&& after.well_formed()
            &&& after.tabs.len() == app.workspace.tabs.len()
            &&& after.tabs[i].panes == app.workspace.tabs[i].panes.push(pane)
            &&& after.tabs[i].panes.len() <= MAX_PANES
        },
{
    if app.workspace.can_split() {
        law_splitting_keeps_order(app.workspace, axis, pane);
    }
}

/// Closing the only pane of a tab closes the tab; closing another one leaves
/// every tab open, and the other panes of its own in their order.
pub proof fn law_the_last_pane_takes_its_tab(app: AppModel)
    requires
        app.well_formed(),
        app.workspace.tabs.len() > 0,
    ensures
        ({
            let w = app.workspace;
            let i = w.active as int;
            let after = app.executed(ActionModel::ClosePane).workspace;
            if w.tabs[i].panes.len() == 1 {
                after == w.without_tab(i) && after.tabs == w.tabs.remove(i)
            } else {
                after.tabs.len() == w.tabs.len() && after.tabs[i].panes == w.tabs[i].panes.remove(
                    w.tabs[i].focused as int,
                )
            }
        }),
{
    assert(app.workspace.tabs[app.workspace.active as int].well_formed());
}

} // verus!
