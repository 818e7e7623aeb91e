//! The keys that the terminal takes for itself before a session sees them.

use crate::app::{Action, ActionModel, App, AppModel, SearchModel, Windows};
use crate::config::settings::SettingsModel;
use crate::input::{InputEvent, Key, Modifiers};
use crate::layout::Axis;
use crate::session::{KindModel, SessionKind, SessionStatus};
use vstd::prelude::*;

verus! {

/// A change of the font size.
#[derive(Clone, Copy, Debug, PartialEq, Eq, Structural)]
pub enum FontStep {
    /// One larger.
    Larger,
    /// One smaller.
    Smaller,
    /// The size of a first start.
    Reset,
}

/// What a key does.
pub enum KeyUse {
    /// It is left to the session.
    Left,
    /// It is taken, and nothing else happens.
    Taken,
    /// It asks for an action.
    Asks(ActionModel),
    /// It shows or hides the search.
    ToggleSearch,
    /// It hides the search.
    CloseSearch,
    /// It shows or hides the navigation bar.
    ToggleSidebar,
    /// It opens the settings.
    OpenSettings,
    /// It activates the next tab.
    NextTab,
    /// It moves the keyboard to the next pane.
    NextPane,
    /// It changes the font size.
    Font(FontStep),
}

impl AppModel {
    /// Whether a window over the tabs keeps the shortcuts from working.
    pub open spec fn shortcuts_blocked(self) -> bool {
        self.windows.settings || self.form.open || self.windows.groups || self.windows.help
            || self.windows.update || self.windows.login || self.windows.files
    }

    /// What a key does when it is pressed.
    pub open spec fn key_use(self, key: Key, mods: Modifiers) -> KeyUse {
        let live = self.workspace.current() matches Some(pane) && pane.link == SessionStatus::Live;
        let remote = self.workspace.current() matches Some(pane) && pane.remote;
        if mods.command && mods.shift {
            match key {
                Key::T => KeyUse::Asks(
                    ActionModel::New(KindModel::Local(self.settings.default_shell)),
                ),
                Key::W => KeyUse::Asks(ActionModel::ClosePane),
                Key::D => KeyUse::Asks(ActionModel::Split(Axis::Horizontal)),
                Key::E => KeyUse::Asks(ActionModel::Split(Axis::Vertical)),
                Key::F => KeyUse::ToggleSearch,
                Key::B => KeyUse::ToggleSidebar,
                _ => KeyUse::Left,
            }
        } else if (mods.ctrl || mods.command) && key == Key::Tab {
            KeyUse::NextTab
        } else if mods.command && key == Key::Comma {
            KeyUse::OpenSettings
        } else if mods.alt && key == Key::ArrowRight {
            KeyUse::NextPane
        } else if mods.alt && key == Key::C {
            if live {
                KeyUse::Asks(ActionModel::Disconnect)
            } else {
                KeyUse::Taken
            }
        } else if mods.alt && key == Key::R {
            if live && remote {
                KeyUse::Taken
            } else {
                KeyUse::Asks(ActionModel::Restart)
            }
        } else if mods.command && key == Key::Minus {
            KeyUse::Font(FontStep::Smaller)
        } else if mods.command && key == Key::Num0 {
            KeyUse::Font(FontStep::Reset)
        } else if mods.command && (key == Key::Plus || key == Key::Equals) {
            KeyUse::Font(FontStep::Larger)
        } else if key == Key::Escape && self.search.open {
            KeyUse::CloseSearch
        } else {
            KeyUse::Left
        }
    }

    /// The terminal once a key was used.
    pub open spec fn used(self, by: KeyUse) -> AppModel {
        match by {
            KeyUse::ToggleSearch => AppModel {
                search: SearchModel {
                    open: !self.search.open,
                    focus: !self.search.open,
                    ..self.search
                },
                ..self
            },
            KeyUse::CloseSearch => AppModel {
                search: SearchModel { open: false, ..self.search },
                ..self
            },
            KeyUse::ToggleSidebar => AppModel {
                settings: SettingsModel { sidebar: !self.settings.sidebar, ..self.settings },
                ..self
            },
            KeyUse::OpenSettings => AppModel {
                windows: Windows { settings: true, ..self.windows },
                ..self
            },
            KeyUse::NextTab => self.with_workspace(self.workspace.next_tab()),
            KeyUse::NextPane => self.with_workspace(self.workspace.next_pane()),
            KeyUse::Left | KeyUse::Taken | KeyUse::Asks(_) | KeyUse::Font(_) => self,
        }
    }
}

/// What came of the events so far.
#[verifier::ext_equal]
pub struct Handled {
    /// The terminal.
    pub app: AppModel,
    /// The last action that was asked for.
    pub action: Option<ActionModel>,
    /// The changes of the font size.
    pub steps: Seq<FontStep>,
    /// Which events are left to the session.
    pub left: Seq<bool>,
}

/// What comes of the events, one after the other.
pub open spec fn handled(app: AppModel, events: Seq<InputEvent>) -> Handled
    decreases events.len(),
{
    if events.len() == 0 {
        Handled { app, action: None, steps: Seq::empty(), left: Seq::empty() }
    } else {
        let before = handled(app, events.drop_last());
        match events.last() {
            InputEvent::Key { key, pressed: true, mods } => {
                let by = before.app.key_use(key, mods);
                Handled {
                    app: before.app.used(by),
                    action: match by {
                        KeyUse::Asks(action) => Some(action),
                        _ => before.action,
                    },
                    steps: match by {
                        KeyUse::Font(step) => before.steps.push(step),
                        _ => before.steps,
                    },
                    left: before.left.push(by is Left),
                }
            },
            _ => Handled { left: before.left.push(true), ..before },
        }
    }
}

/// Which events the session gets: those that were left to it, and no text where
/// a key was taken. A key that is held with Alt arrives as text as well, which
/// must not be typed.
pub open spec fn passed_on(events: Seq<InputEvent>, left: Seq<bool>) -> Seq<bool> {
    let taken = left.contains(false);
    Seq::new(events.len(), |i: int| left[i] && !(taken && events[i] is Text))
}

/// What the shortcuts came to.
#[derive(Debug)]
pub struct Shortcuts {
    /// The action that was asked for.
    pub action: Option<Action>,
    /// The changes of the font size, in order.
    pub steps: Vec<FontStep>,
    /// Which events the session gets.
    pub keep: Vec<bool>,
}

/// What an action that may be missing asks for.
pub open spec fn action_model(action: Option<Action>) -> Option<ActionModel> {
    match action {
        Some(a) => Some(a@),
        None => None,
    }
}

impl App {
    /// Uses a key that was pressed. Says whether it was taken, and what it asks
    /// for.
    fn press(&mut self, key: Key, mods: Modifiers) -> (out: (
        bool,
        Option<Action>,
        Option<FontStep>,
    ))
        requires
            old(self)@.well_formed(),
        ensures
            final(self)@ == old(self)@.used(old(self)@.key_use(key, mods)),
            final(self)@.well_formed(),
            out.0 == !(old(self)@.key_use(key, mods) is Left),
            action_model(out.1) == (match old(self)@.key_use(key, mods) {
                KeyUse::Asks(action) => Some(action),
                _ => None,
            }),
            out.2 == (match old(self)@.key_use(key, mods) {
                KeyUse::Font(step) => Some(step),
                _ => None,
            }),
    {
        let ghost before = self@;
        if mods.command && mods.shift {
            let out = match key {
                Key::T => (
                    true,
                    Some(Action::New(SessionKind::Local(self.settings.default_shell.clone()))),
                    None,
                ),
                Key::W => (true, Some(Action::ClosePane), None),
                Key::D => (true, Some(Action::Split(Axis::Horizontal)), None),
                Key::E => (true, Some(Action::Split(Axis::Vertical)), None),
                Key::F => {
                    self.search.open = !self.search.open;
                    self.search.focus = self.search.open;
                    (true, None, None)
                },
                Key::B => {
                    self.settings.sidebar = !self.settings.sidebar;
                    (true, None, None)
                },
                _ => (false, None, None),
            };
            assert(self@ =~= before.used(before.key_use(key, mods)));
            return out;
        }
        if (mods.ctrl || mods.command) && key == Key::Tab {
            self.workspace.next_tab();
            assert(self@ =~= before.used(before.key_use(key, mods)));
            return (true, None, None);
        }
        if mods.command && key == Key::Comma {
            self.windows.settings = true;
            assert(self@ =~= before.used(before.key_use(key, mods)));
            return (true, None, None);
        }
        if mods.alt && key == Key::ArrowRight {
            self.workspace.next_pane();
            assert(self@ =~= before.used(before.key_use(key, mods)));
            return (true, None, None);
        }
        if mods.alt && (key == Key::C || key == Key::R) {
            let live = match self.workspace.active_link() {
                Some(SessionStatus::Live) => true,
                _ => false,
            };
            let action: Option<Action> = if key == Key::C {
                if live {
                    Some(Action::Disconnect)
                } else {
                    None
                }
            } else if live && self.workspace.active_is_remote() {
                None
            } else {
                Some(Action::Restart)
            };
            return (true, action, None);
        }
        if mods.command && key == Key::Minus {
            return (true, None, Some(FontStep::Smaller));
        }
        if mods.command && key == Key::Num0 {
            return (true, None, Some(FontStep::Reset));
        }
        if mods.command && (key == Key::Plus || key == Key::Equals) {
            return (true, None, Some(FontStep::Larger));
        }
        if key == Key::Escape && self.search.open {
            self.search.open = false;
            assert(self@ =~= before.used(before.key_use(key, mods)));
            return (true, None, None);
        }
        (false, None, None)
    }

    /// Whether a window over the tabs keeps the shortcuts from working.
    pub fn shortcuts_are_blocked(&self) -> (yes: bool)
        ensures
            yes == self@.shortcuts_blocked(),
    {
        self.windows.settings || self.form.open || self.windows.groups || self.windows.help
            || self.windows.update || self.windows.login || self.windows.files
    }

    /// Takes the shortcuts out of the events of a frame.
    pub fn shortcuts(&mut self, events: &Vec<InputEvent>) -> (out: Shortcuts)
        requires
            old(self)@.well_formed(),
        ensures
            final(self)@.well_formed(),
            old(self)@.shortcuts_blocked() ==> final(self)@ == old(self)@ && out.action is None
                && out.steps@.len() == 0 && out.keep@ == Seq::new(events@.len(), |i: int| true),
            !old(self)@.shortcuts_blocked() ==> ({
                let h = handled(old(self)@, events@);
                &&& final(self)@ == h.app
                &&& action_model(out.action) == h.action
                &&& out.steps@ == h.steps
                &&& out.keep@ == passed_on(events@, h.left)
            }),
    {
        let n: usize = events.len();
        let mut keep: Vec<bool> = Vec::new();
        if self.shortcuts_are_blocked() {
            let mut i: usize = 0;
            while i < n
                invariant
                    i <= n,
                    n == events@.len(),
                    keep@ == Seq::new(i as nat, |k: int| true),
                decreases n - i,
            {
                keep.push(true);
                i += 1;
                assert(keep@ =~= Seq::new(i as nat, |k: int| true));
            }
            return Shortcuts { action: None, steps: Vec::new(), keep };
        }
        let ghost before = self@;
        let mut action: Option<Action> = None;
        let mut steps: Vec<FontStep> = Vec::new();
        let mut taken = false;
        let mut i: usize = 0;
        assert(events@.take(0) =~= Seq::<InputEvent>::empty());
        while i < n
            invariant
                i <= n,
                n == events@.len(),
                self@.well_formed(),
                self@ == handled(before, events@.take(i as int)).app,
                action_model(action) == handled(before, events@.take(i as int)).action,
                steps@ == handled(before, events@.take(i as int)).steps,
                keep@ == handled(before, events@.take(i as int)).left,
                keep@.len() == i,
                taken == keep@.contains(false),
            decreases n - i,
        {
            assert(events@.take(i + 1).drop_last() =~= events@.take(i as int));
            assert(events@.take(i + 1).last() == events@[i as int]);
            let ghost was = keep@;
            match &events[i] {
                InputEvent::Key { key, pressed, mods } => {
                    if *pressed {
                        let (used, asked, step) = self.press(*key, *mods);
                        if asked.is_some() {
                            action = asked;
                        }
                        if let Some(step) = step {
                            steps.push(step);
                        }
                        keep.push(!used);
                        if used {
                            taken = true;
                        }
                    } else {
                        keep.push(true);
                    }
                },
                _ => {
                    keep.push(true);
                },
            }
            proof {
                lemma_contains_false(was, keep@[i as int]);
                assert(keep@ =~= was.push(keep@[i as int]));
            }
            i += 1;
        }
        assert(events@.take(n as int) =~= events@);
        let ghost left = keep@;
        let mut out: Vec<bool> = Vec::new();
        let mut k: usize = 0;
        while k < n
            invariant
                k <= n,
                n == events@.len(),
                n == keep@.len(),
                left == keep@,
                taken == left.contains(false),
                out@ == passed_on(events@, left).take(k as int),
            decreases n - k,
        {
            let typed = match &events[k] {
                InputEvent::Text(_) => true,
                _ => false,
            };
            out.push(keep[k] && !(taken && typed));
            assert(passed_on(events@, left).take(k + 1) =~= passed_on(events@, left).take(
                k as int,
            ).push(passed_on(events@, left)[k as int]));
            k += 1;
        }
        assert(passed_on(events@, left).take(n as int) =~= passed_on(events@, left));
        Shortcuts { action, steps, keep: out }
    }
}

proof fn lemma_contains_false(s: Seq<bool>, b: bool)
    ensures
        s.push(b).contains(false) == (s.contains(false) || !b),
{
    if s.contains(false) {
        let j = choose|j: int| 0 <= j < s.len() && s[j] == false;
        assert(s.push(b)[j] == false);
    }
    if !b {
        assert(s.push(b)[s.len() as int] == false);
    }
    if s.push(b).contains(false) && b {
        let j = choose|j: int| 0 <= j < s.push(b).len() && s.push(b)[j] == false;
        assert(s[j] == false);
    }
}

proof fn lemma_left_len(app: AppModel, events: Seq<InputEvent>)
    ensures
        handled(app, events).left.len() == events.len(),
    decreases events.len(),
{
    if events.len() > 0 {
        lemma_left_len(app, events.drop_last());
    }
}

/// A shortcut does not leak its text into the session: where a key was taken, no
/// text of that frame is passed on.
pub proof fn law_a_shortcut_types_nothing(app: AppModel, events: Seq<InputEvent>, i: int, k: int)
    requires
        0 <= i < events.len(),
        0 <= k < events.len(),
        !handled(app, events).left[k],
        events[i] is Text,
    ensures
        !passed_on(events, handled(app, events).left)[i],
{
    lemma_left_len(app, events);
    assert(handled(app, events).left[k] == false);
    assert(handled(app, events).left.contains(false));
}

/// Keys that are let go, and what is no key, are never taken: text and other
/// events reach the session where no key of the frame was.
pub proof fn law_only_pressed_keys_are_taken(app: AppModel, events: Seq<InputEvent>, i: int)
    requires
        0 <= i < events.len(),
        !(events[i] matches InputEvent::Key { pressed, .. } && pressed),
    ensures
        handled(app, events).left[i],
    decreases events.len(),
{
    lemma_left_len(app, events.drop_last());
    if i < events.len() - 1 {
        law_only_pressed_keys_are_taken(app, events.drop_last(), i);
    }
}

/// A key that is held with Command and Shift: T opens a tab with the default
/// shell, W closes the pane, D puts a pane beside it, E puts one below it, F
/// opens or closes the search, and B the sidebar. All others are left alone.
pub proof fn law_what_command_and_shift_do(app: AppModel, key: Key, mods: Modifiers)
    requires
        mods.command,
        mods.shift,
    ensures
        key == Key::T ==> app.key_use(key, mods) == KeyUse::Asks(
            ActionModel::New(KindModel::Local(app.settings.default_shell)),
        ),
        key == Key::W ==> app.key_use(key, mods) == KeyUse::Asks(ActionModel::ClosePane),
        key == Key::D ==> app.key_use(key, mods) == KeyUse::Asks(
            ActionModel::Split(Axis::Horizontal),
        ),
        key == Key::E ==> app.key_use(key, mods) == KeyUse::Asks(
            ActionModel::Split(Axis::Vertical),
        ),
        key == Key::F ==> app.key_use(key, mods) is ToggleSearch,
        key == Key::B ==> app.key_use(key, mods) is ToggleSidebar,
        key != Key::T && key != Key::W && key != Key::D && key != Key::E && key != Key::F && key
            != Key::B ==> app.key_use(key, mods) is Left,
{
}

/// A key that is held without Shift: Tab with Command or Control goes to the
/// next tab, a comma with Command opens the settings, and minus, zero, plus and
/// the equals sign with Command change the size of the font.
pub proof fn law_what_command_does(app: AppModel, key: Key, mods: Modifiers)
    requires
        !mods.shift,
    ensures
        key == Key::Tab && (mods.command || mods.ctrl) ==> app.key_use(key, mods) is NextTab,
        key == Key::Comma && mods.command ==> app.key_use(key, mods) is OpenSettings,
        key == Key::Minus && mods.command ==> app.key_use(key, mods) == KeyUse::Font(
            FontStep::Smaller,
        ),
        key == Key::Num0 && mods.command ==> app.key_use(key, mods) == KeyUse::Font(
            FontStep::Reset,
        ),
        (key == Key::Plus || key == Key::Equals) && mods.command ==> app.key_use(key, mods)
            == KeyUse::Font(FontStep::Larger),
{
}

/// With Alt the right arrow goes to the next pane. C ends a live session, R
/// starts one again that is not live, or one of this machine that is. Both are
/// taken from the session even where there is nothing to do.
pub proof fn law_what_alt_does(app: AppModel, key: Key, mods: Modifiers)
    requires
        mods.alt,
        !mods.shift,
    ensures
        key == Key::ArrowRight ==> app.key_use(key, mods) is NextPane,
        key == Key::C || key == Key::R ==> !(app.key_use(key, mods) is Left),
        (app.key_use(key, mods) == KeyUse::Asks(ActionModel::Disconnect)) <==> (key == Key::C && (
        app.workspace.current() matches Some(pane) && pane.link == SessionStatus::Live)),
        (app.key_use(key, mods) == KeyUse::Asks(ActionModel::Restart)) <==> (key == Key::R && !(
        app.workspace.current() matches Some(pane) && pane.link == SessionStatus::Live
            && pane.remote)),
{
}

/// A key that is held with nothing, or with Shift alone, reaches the session.
/// Only Escape closes the search first, where it is open.
pub proof fn law_plain_keys_reach_the_session(app: AppModel, key: Key, mods: Modifiers)
    requires
        !mods.command,
        !mods.ctrl,
        !mods.alt,
    ensures
        key == Key::Escape && app.search.open ==> app.key_use(key, mods) is CloseSearch,
        !(key == Key::Escape && app.search.open) ==> app.key_use(key, mods) is Left,
{
}

/// What a key does to the terminal: the search and the sidebar are opened and
/// closed in turn, a search that opens gets the keyboard, and all the rest stays
/// as it is.
pub proof fn law_what_a_used_key_changes(app: AppModel)
    ensures
        app.used(KeyUse::ToggleSearch).search.open != app.search.open,
        app.used(KeyUse::ToggleSearch).search.focus == !app.search.open,
        app.used(KeyUse::ToggleSearch).search.hits == app.search.hits,
        app.used(KeyUse::ToggleSearch).search.index == app.search.index,
        app.used(KeyUse::ToggleSearch) == (AppModel {
            search: app.used(KeyUse::ToggleSearch).search,
            ..app
        }),
        !app.used(KeyUse::CloseSearch).search.open,
        app.used(KeyUse::CloseSearch) == (AppModel {
            search: SearchModel { open: false, ..app.search },
            ..app
        }),
        app.used(KeyUse::ToggleSidebar).settings.sidebar != app.settings.sidebar,
        app.used(KeyUse::ToggleSidebar).used(KeyUse::ToggleSidebar) == app,
        app.used(KeyUse::OpenSettings).windows.settings,
        app.used(KeyUse::OpenSettings) == (AppModel {
            windows: Windows { settings: true, ..app.windows },
            ..app
        }),
        app.used(KeyUse::NextTab) == (AppModel { workspace: app.workspace.next_tab(), ..app }),
        app.used(KeyUse::NextPane) == (AppModel { workspace: app.workspace.next_pane(), ..app }),
        app.used(KeyUse::Left) == app,
        app.used(KeyUse::Taken) == app,
        forall|action: ActionModel| #[trigger] app.used(KeyUse::Asks(action)) == app,
        forall|step: FontStep| #[trigger] app.used(KeyUse::Font(step)) == app,
{
}

/// Each of the windows over the tabs blocks the shortcuts, and nothing else
/// does.
pub proof fn law_what_blocks_the_shortcuts(app: AppModel)
    ensures
        app.windows.settings ==> app.shortcuts_blocked(),
        app.form.open ==> app.shortcuts_blocked(),
        app.windows.groups ==> app.shortcuts_blocked(),
        app.windows.help ==> app.shortcuts_blocked(),
        app.windows.update ==> app.shortcuts_blocked(),
        app.windows.login ==> app.shortcuts_blocked(),
        app.windows.files ==> app.shortcuts_blocked(),
        app.shortcuts_blocked() ==> app.windows.settings || app.form.open || app.windows.groups
            || app.windows.help || app.windows.update || app.windows.login || app.windows.files,
{
}

/// The events are used in their order: a pressed key meets the terminal as the
/// earlier ones have left it, the last action that is asked for counts, and
/// every change of the font size does.
pub proof fn law_events_are_used_in_order(
    app: AppModel,
    events: Seq<InputEvent>,
    key: Key,
    mods: Modifiers,
)
    ensures
        ({
            let before = handled(app, events);
            let after = handled(app, events.push(InputEvent::Key { key, pressed: true, mods }));
            let by = before.app.key_use(key, mods);
            &&& after.app == before.app.used(by)
            &&& after.left == before.left.push(by is Left)
            &&& by matches KeyUse::Asks(action) ==> after.action == Some(action)
            &&& !(by is Asks) ==> after.action == before.action
            &&& by matches KeyUse::Font(step) ==> after.steps == before.steps.push(step)
            &&& !(by is Font) ==> after.steps == before.steps
        }),
        handled(app, Seq::empty()).app == app,
        handled(app, Seq::empty()).action is None,
        handled(app, Seq::empty()).steps.len() == 0,
{
    let event = InputEvent::Key { key, pressed: true, mods };
    assert(events.push(event).drop_last() =~= events);
    assert(events.push(event).last() == event);
}

/// What is no pressed key changes nothing.
pub proof fn law_other_events_change_nothing(
    app: AppModel,
    events: Seq<InputEvent>,
    event: InputEvent,
)
    requires
        !(event matches InputEvent::Key { pressed, .. } && pressed),
    ensures
        handled(app, events.push(event)) == (Handled {
            left: handled(app, events).left.push(true),
            ..handled(app, events)
        }),
{
    assert(events.push(event).drop_last() =~= events);
    assert(events.push(event).last() == event);
}

/// Where no key was taken the session gets every event, and where one was it
/// gets all that was left but the text.
pub proof fn law_what_the_session_gets(events: Seq<InputEvent>, left: Seq<bool>, i: int)
    requires
        left.len() == events.len(),
        0 <= i < events.len(),
    ensures
        passed_on(events, left).len() == events.len(),
        !left.contains(false) ==> passed_on(events, left)[i],
        left[i] && !(events[i] is Text) ==> passed_on(events, left)[i],
        !left[i] ==> !passed_on(events, left)[i],
        events[i] is Text && left.contains(false) ==> !passed_on(events, left)[i],
{
    if !left[i] {
        assert(left.contains(left[i]));
    } else if !left.contains(false) {
        assert(left[i]);
    }
}

/// The model of an action that may be missing is missing where the action is.
pub proof fn law_models_hold_what_is_asked_for(action: Option<Action>)
    ensures
        action is None ==> action_model(action) is None,
        action matches Some(a) ==> action_model(action) == Some(a@),
{
}

} // verus!
