//! The title bar: the window's edges, the brand menu, the tab strip and the
//! window's title.

use crate::app::App;
use crate::config::profile::text_copy;
use crate::session::{SessionStatus, TagColor};
use crate::text::{chars_of, decimal, push_decimal, same_str, string_of};
use crate::workspace::Tab;
use vstd::prelude::*;
use vstd::slice::slice_subrange;

verus! {

/// The edge or corner by which a window is resized.
#[derive(Clone, Copy, Debug, PartialEq, Eq, Structural)]
pub enum ResizeDirection {
    North,
    South,
    East,
    West,
    NorthEast,
    NorthWest,
    SouthEast,
    SouthWest,
}

/// Which edge the pointer is at, by which of the four it is near. A corner wins
/// over an edge, and the left and the upper one over their opposites.
pub open spec fn edge_at(left: bool, right: bool, top: bool, bottom: bool) -> Option<
    ResizeDirection,
> {
    if left && top {
        Some(ResizeDirection::NorthWest)
    } else if right && top {
        Some(ResizeDirection::NorthEast)
    } else if left && bottom {
        Some(ResizeDirection::SouthWest)
    } else if right && bottom {
        Some(ResizeDirection::SouthEast)
    } else if left {
        Some(ResizeDirection::West)
    } else if right {
        Some(ResizeDirection::East)
    } else if top {
        Some(ResizeDirection::North)
    } else if bottom {
        Some(ResizeDirection::South)
    } else {
        None
    }
}

/// Which edge the pointer is at.
pub fn resize_direction(left: bool, right: bool, top: bool, bottom: bool) -> (out: Option<
    ResizeDirection,
>)
    ensures
        out == edge_at(left, right, top, bottom),
{
    match (left, right, top, bottom) {
        (true, _, true, _) => Some(ResizeDirection::NorthWest),
        (_, true, true, _) => Some(ResizeDirection::NorthEast),
        (true, _, _, true) => Some(ResizeDirection::SouthWest),
        (_, true, _, true) => Some(ResizeDirection::SouthEast),
        (true, _, _, _) => Some(ResizeDirection::West),
        (_, true, _, _) => Some(ResizeDirection::East),
        (_, _, true, _) => Some(ResizeDirection::North),
        (_, _, _, true) => Some(ResizeDirection::South),
        _ => None,
    }
}

/// The shape of the pointer over an edge or a corner.
#[derive(Clone, Copy, Debug, PartialEq, Eq, Structural)]
pub enum ResizeCursor {
    Vertical,
    Horizontal,
    /// Along the falling diagonal.
    NwSe,
    /// Along the rising diagonal.
    NeSw,
}

impl ResizeDirection {
    /// The shape of the pointer over this edge or corner.
    pub fn cursor(self) -> (out: ResizeCursor)
        ensures
            out == (match self {
                ResizeDirection::North | ResizeDirection::South => ResizeCursor::Vertical,
                ResizeDirection::East | ResizeDirection::West => ResizeCursor::Horizontal,
                ResizeDirection::NorthWest | ResizeDirection::SouthEast => ResizeCursor::NwSe,
                ResizeDirection::NorthEast | ResizeDirection::SouthWest => ResizeCursor::NeSw,
            }),
    {
        match self {
            ResizeDirection::North | ResizeDirection::South => ResizeCursor::Vertical,
            ResizeDirection::East | ResizeDirection::West => ResizeCursor::Horizontal,
            ResizeDirection::NorthWest | ResizeDirection::SouthEast => ResizeCursor::NwSe,
            ResizeDirection::NorthEast | ResizeDirection::SouthWest => ResizeCursor::NeSw,
        }
    }
}

/// The room around the title bar's contents, in points.
#[derive(Clone, Copy, Debug, PartialEq, Eq, Structural)]
pub struct Margin {
    pub left: u8,
    pub right: u8,
    pub top: u8,
    pub bottom: u8,
}

/// The room around the title bar's contents. On a Mac the left side clears the
/// buttons of the platform; everywhere else the whole row is ours.
pub fn topbar_margin(macos: bool) -> (out: Margin)
    ensures
        out.left == (if macos {
            78u8
        } else {
            4u8
        }),
        out.right == 4,
        out.top == 2,
        out.bottom == 2,
{
    Margin {
        left: if macos {
            78
        } else {
            4
        },
        right: 4,
        top: 2,
        bottom: 2,
    }
}

/// Inside the window no edge is grabbed, and near any edge one is.
pub proof fn law_only_edges_resize(left: bool, right: bool, top: bool, bottom: bool)
    ensures
        edge_at(left, right, top, bottom) is None <==> !left && !right && !top && !bottom,
{
}

/// A shortcut as it is shown: a Mac has Command where others have Control.
pub open spec fn accel_text(s: Seq<char>, macos: bool) -> Seq<char>
    decreases s.len(),
{
    if !macos {
        s
    } else if s.len() == 0 {
        s
    } else if s.len() >= 4 && s.take(4) == "Ctrl"@ {
        "Cmd"@ + accel_text(s.skip(4), macos)
    } else {
        seq![s[0]] + accel_text(s.skip(1), macos)
    }
}

/// A shortcut as it is shown.
pub fn accel(shortcut: &str, macos: bool) -> (out: String)
    ensures
        out@ == accel_text(shortcut@, macos),
{
    if !macos {
        return text_copy(shortcut);
    }
    proof {
        reveal_strlit("Ctrl");
    }
    let s: Vec<char> = chars_of(shortcut);
    let n: usize = s.len();
    let mut out = String::new();
    let mut i: usize = 0;
    assert(s@.skip(0) =~= s@);
    assert(out@ + accel_text(s@, macos) =~= accel_text(s@, macos));
    while i < n
        invariant
            macos,
            i <= n,
            n == s@.len(),
            "Ctrl"@ == seq!['C', 't', 'r', 'l'],
            out@ + accel_text(s@.skip(i as int), macos) == accel_text(s@, macos),
        decreases n - i,
    {
        let ghost rest = s@.skip(i as int);
        let ghost before = out@;
        if n - i >= 4 && s[i] == 'C' && s[i + 1] == 't' && s[i + 2] == 'r' && s[i + 3] == 'l' {
            proof {
                assert(rest.take(4) =~= "Ctrl"@);
                assert(rest.skip(4) =~= s@.skip(i + 4));
            }
            out.append("Cmd");
            assert(before + ("Cmd"@ + accel_text(s@.skip(i + 4), macos)) =~= out@ + accel_text(
                s@.skip(i + 4),
                macos,
            ));
            i += 4;
        } else {
            proof {
                if rest.len() >= 4 && rest.take(4) == "Ctrl"@ {
                    assert(rest.take(4)[0] == 'C');
                    assert(rest.take(4)[1] == 't');
                    assert(rest.take(4)[2] == 'r');
                    assert(rest.take(4)[3] == 'l');
                }
                assert(rest.skip(1) =~= s@.skip(i + 1));
                assert(rest[0] == s@[i as int]);
            }
            out.push(s[i]);
            assert(before + (seq![s@[i as int]] + accel_text(s@.skip(i + 1), macos)) =~= out@
                + accel_text(s@.skip(i + 1), macos));
            i += 1;
        }
    }
    assert(s@.skip(n as int) =~= Seq::<char>::empty());
    assert(out@ + accel_text(Seq::<char>::empty(), macos) =~= out@);
    out
}

/// What the menu offers for the focused session.
#[derive(Clone, Copy, Debug, PartialEq, Eq, Structural)]
pub struct SessionMenu {
    /// It can be disconnected.
    pub disconnect: bool,
    /// It can be connected again, and how that is called.
    pub restart: Option<RestartLabel>,
}

/// How starting a session anew is called.
#[derive(Clone, Copy, Debug, PartialEq, Eq, Structural)]
pub enum RestartLabel {
    /// The session runs: it would be started over.
    Restart,
    /// The session does not run.
    Reconnect,
}

impl RestartLabel {
    /// The text of the menu entry.
    pub fn text(self) -> (out: &'static str)
        ensures
            out@ == (if self == RestartLabel::Restart {
                "重新连接 / 重启"@
            } else {
                "重新连接"@
            }),
    {
        match self {
            RestartLabel::Restart => "重新连接 / 重启",
            RestartLabel::Reconnect => "重新连接",
        }
    }
}

impl App {
    /// What the menu offers for the focused session: only what its link state
    /// can do. A connected session can be disconnected, a dropped one
    /// reconnected, and a live local shell can still be restarted.
    pub fn session_menu(&self) -> (out: SessionMenu)
        requires
            self@.well_formed(),
        ensures
            ({
                let live = self@.workspace.current() matches Some(pane) && pane.link
                    == SessionStatus::Live;
                let remote = self@.workspace.current() matches Some(pane) && pane.remote;
                &&& out.disconnect == live
                &&& out.restart == (if live && remote {
                    None
                } else if live {
                    Some(RestartLabel::Restart)
                } else {
                    Some(RestartLabel::Reconnect)
                })
            }),
    {
        let live = match self.workspace.active_link() {
            Some(SessionStatus::Live) => true,
            _ => false,
        };
        let restart: Option<RestartLabel> = if live {
            if self.workspace.active_is_remote() {
                None
            } else {
                Some(RestartLabel::Restart)
            }
        } else {
            Some(RestartLabel::Reconnect)
        };
        SessionMenu { disconnect: live, restart }
    }

    /// Whether there is a tab that closing the disconnected ones would close.
    pub fn any_tab_ended(&self) -> (yes: bool)
        ensures
            yes == exists|i: int|
                0 <= i < self@.workspace.tabs.len() && (#[trigger] self@.workspace.tabs[i]).ended(),
    {
        let n: usize = self.workspace.tabs.len();
        let mut i: usize = 0;
        while i < n
            invariant
                i <= n,
                n == self.workspace.tabs@.len(),
                forall|k: int| 0 <= k < i ==> !(#[trigger] self@.workspace.tabs[k]).ended(),
            decreases n - i,
        {
            assert(self@.workspace.tabs[i as int] == self.workspace.tabs@[i as int]@);
            if self.workspace.tabs[i].has_ended() {
                return true;
            }
            i += 1;
        }
        false
    }
}

/// The longest label of a pane in the tab strip, in characters.
pub const MAX_LABEL: usize = 18;

/// What a pane is called: by the title that its session has set, else by the
/// session's own label.
pub open spec fn called(title: Seq<char>, label: Seq<char>) -> Seq<char> {
    if title.len() == 0 {
        label
    } else {
        title
    }
}

/// What a pane is called.
pub fn pane_name(title: &str, label: &str) -> (out: String)
    ensures
        out@ == called(title@, label@),
{
    if title.is_empty() {
        text_copy(label)
    } else {
        text_copy(title)
    }
}

/// The label of a pane in the tab strip: what it is called, cut to what fits.
pub open spec fn pane_label(title: Seq<char>, label: Seq<char>) -> Seq<char> {
    let text = called(title, label);
    if text.len() > MAX_LABEL {
        text.take(MAX_LABEL as int)
    } else {
        text
    }
}

/// The label of a pane in the tab strip.
pub fn strip_label(title: &str, label: &str) -> (out: String)
    ensures
        out@ == pane_label(title@, label@),
{
    let chars: Vec<char> = chars_of(pane_name(title, label).as_str());
    let n: usize = chars.len();
    if n > MAX_LABEL {
        let head = slice_subrange(chars.as_slice(), 0, MAX_LABEL);
        assert(head@ =~= chars@.take(MAX_LABEL as int));
        string_of(head)
    } else {
        string_of(chars.as_slice())
    }
}

/// What hovering a tab shows.
pub fn tab_hint(label: &str, panes: usize) -> (out: String)
    ensures
        out@ == label@ + " · "@ + decimal(panes as nat) + " 个窗格 · 中键关闭"@,
{
    let mut out = text_copy(label);
    out.append(" · ");
    push_decimal(&mut out, panes as u64);
    out.append(" 个窗格 · 中键关闭");
    out
}

/// Whether a tab shows a bell: a session of a background tab rang.
pub fn shows_bell(tab: &Tab, active: bool) -> (yes: bool)
    ensures
        yes == (!active && exists|i: int| 0 <= i < tab@.panes.len() && (#[trigger] tab@.panes[i]).bell),
{
    if active {
        return false;
    }
    let n: usize = tab.panes.len();
    let mut i: usize = 0;
    while i < n
        invariant
            !active,
            i <= n,
            n == tab.panes@.len(),
            forall|k: int| 0 <= k < i ==> !(#[trigger] tab@.panes[k]).bell,
        decreases n - i,
    {
        assert(tab@.panes[i as int] == tab.panes@[i as int]@);
        if tab.panes[i].bell {
            return true;
        }
        i += 1;
    }
    false
}

/// The title of the window: that of the focused session, where it has one.
pub open spec fn title_text(session: Option<Seq<char>>) -> Seq<char> {
    match session {
        Some(t) if t.len() > 0 => t + " 鈥?G-Terminal"@,
        _ => "G-Terminal"@,
    }
}

/// The title of the window.
pub fn window_title(session: &Option<String>) -> (out: String)
    ensures
        out@ == title_text(crate::text::optional(*session)),
{
    match session {
        Some(t) => {
            if t.as_str().is_empty() {
                return text_copy("G-Terminal");
            }
            let mut out: String = t.clone();
            out.append(" 鈥?G-Terminal");
            out
        },
        None => text_copy("G-Terminal"),
    }
}

/// The title to give the window, where it is not the one it has.
pub fn next_title(session: &Option<String>, current: &str) -> (out: Option<String>)
    ensures
        match out {
            Some(title) => title@ == title_text(crate::text::optional(*session)) && title@
                != current@,
            None => title_text(crate::text::optional(*session)) == current@,
        },
{
    let title: String = window_title(session);
    if same_str(title.as_str(), current) {
        None
    } else {
        Some(title)
    }
}

/// What colours a tab.
#[derive(Clone, Copy, Debug, PartialEq, Eq, Structural)]
pub enum Tint {
    /// Nothing: it looks like the bar.
    Plain,
    /// The colour of its connection or group.
    Tag { color: TagColor },
    /// The colour of the interface.
    Accent,
}

/// How a tab is filled and outlined.
#[derive(Clone, Copy, Debug, PartialEq, Eq, Structural)]
pub struct TabLook {
    pub tint: Tint,
    /// It stands out from the bar.
    pub raised: bool,
    /// How much of the tint shows, in hundredths.
    pub mix: u8,
    /// How strong its outline is, in hundredths.
    pub outline: u8,
}

/// How a tab is filled and outlined: the active one stands out, one under the
/// pointer a little, and the colour of its connection or group is kept in each.
pub open spec fn look_of(color: Option<TagColor>, active: bool, hovered: bool) -> TabLook {
    match color {
        Some(color) => TabLook {
            tint: Tint::Tag { color },
            raised: active,
            mix: if active {
                35
            } else if hovered {
                22
            } else {
                15
            },
            outline: if active {
                60
            } else {
                0
            },
        },
        None => if active {
            TabLook { tint: Tint::Accent, raised: true, mix: 16, outline: 45 }
        } else if hovered {
            TabLook { tint: Tint::Accent, raised: false, mix: 10, outline: 0 }
        } else {
            TabLook { tint: Tint::Plain, raised: false, mix: 0, outline: 0 }
        },
    }
}

/// How a tab is filled and outlined.
pub fn tab_look(color: Option<TagColor>, active: bool, hovered: bool) -> (out: TabLook)
    ensures
        out == look_of(color, active, hovered),
{
    match color {
        Some(color) => TabLook {
            tint: Tint::Tag { color },
            raised: active,
            mix: if active {
                35
            } else if hovered {
                22
            } else {
                15
            },
            outline: if active {
                60
            } else {
                0
            },
        },
        None => if active {
            TabLook { tint: Tint::Accent, raised: true, mix: 16, outline: 45 }
        } else if hovered {
            TabLook { tint: Tint::Accent, raised: false, mix: 10, outline: 0 }
        } else {
            TabLook { tint: Tint::Plain, raised: false, mix: 0, outline: 0 }
        },
    }
}

/// The direction of a resize says which edges are at hand. Where the window is so small
/// that two opposite ones are, the left and the upper edge count.
pub proof fn law_edges_give_their_direction(left: bool, right: bool, top: bool, bottom: bool)
    ensures
        edge_at(left, right, top, bottom) == Some(ResizeDirection::NorthWest) <==> left && top,
        edge_at(left, right, top, bottom) == Some(ResizeDirection::NorthEast) <==> right && !left
            && top,
        edge_at(left, right, top, bottom) == Some(ResizeDirection::SouthWest) <==> left && bottom
            && !top,
        edge_at(left, right, top, bottom) == Some(ResizeDirection::SouthEast) <==> right && !left
            && bottom && !top,
        edge_at(left, right, top, bottom) == Some(ResizeDirection::West) <==> left && !top
            && !bottom,
        edge_at(left, right, top, bottom) == Some(ResizeDirection::East) <==> right && !left
            && !top && !bottom,
        edge_at(left, right, top, bottom) == Some(ResizeDirection::North) <==> top && !left
            && !right,
        edge_at(left, right, top, bottom) == Some(ResizeDirection::South) <==> bottom && !top
            && !left && !right,
{
}

/// A shortcut that names no control key is shown as it is, and on other machines
/// than a Mac each one is.
pub proof fn law_other_shortcuts_are_shown_as_they_are(s: Seq<char>, macos: bool)
    requires
        macos ==> forall|j: int|
            0 <= j <= s.len() - 4 ==> #[trigger] s.subrange(j, j + 4) != seq!['C', 't', 'r', 'l'],
    ensures
        accel_text(s, macos) == s,
    decreases s.len(),
{
    if macos && s.len() > 0 {
        reveal_strlit("Ctrl");
        assert("Ctrl"@ =~= seq!['C', 't', 'r', 'l']);
        let t = s.skip(1);
        assert forall|j: int| 0 <= j <= t.len() - 4 implies #[trigger] t.subrange(j, j + 4) != seq![
            'C',
            't',
            'r',
            'l',
        ] by {
            assert(t.subrange(j, j + 4) =~= s.subrange(j + 1, j + 1 + 4));
        }
        law_other_shortcuts_are_shown_as_they_are(t, macos);
        if s.len() >= 4 {
            assert(s.take(4) =~= s.subrange(0, 0int + 4));
        }
        assert(seq![s[0]] + t =~= s);
    }
}

/// On a Mac the first control key that a shortcut names becomes the command key, what
/// stands before it stays, and what comes behind it is changed in the same way.
pub proof fn law_control_is_command_on_a_mac(s: Seq<char>, at: int)
    requires
        0 <= at <= s.len() - 4,
        s.subrange(at, at + 4) == seq!['C', 't', 'r', 'l'],
        forall|j: int| 0 <= j < at ==> #[trigger] s.subrange(j, j + 4) != seq!['C', 't', 'r', 'l'],
    ensures
        accel_text(s, true) == s.take(at) + seq!['C', 'm', 'd'] + accel_text(s.skip(at + 4), true),
    decreases at,
{
    reveal_strlit("Ctrl");
    reveal_strlit("Cmd");
    assert("Ctrl"@ =~= seq!['C', 't', 'r', 'l']);
    assert("Cmd"@ =~= seq!['C', 'm', 'd']);
    assert(s.take(4) =~= s.subrange(0, 0int + 4));
    let rest = accel_text(s.skip(at + 4), true);
    if at == 0 {
        assert(s.take(at) + seq!['C', 'm', 'd'] + rest =~= seq!['C', 'm', 'd'] + rest);
    } else {
        let t = s.skip(1);
        assert(t.subrange(at - 1, at - 1 + 4) =~= s.subrange(at, at + 4));
        assert forall|j: int| 0 <= j < at - 1 implies #[trigger] t.subrange(j, j + 4) != seq![
            'C',
            't',
            'r',
            'l',
        ] by {
            assert(t.subrange(j, j + 4) =~= s.subrange(j + 1, j + 1 + 4));
        }
        law_control_is_command_on_a_mac(t, at - 1);
        assert(t.skip(at - 1 + 4) =~= s.skip(at + 4));
        assert(seq![s[0]] + (t.take(at - 1) + seq!['C', 'm', 'd'] + rest) =~= s.take(at) + seq![
            'C',
            'm',
            'd',
        ] + rest);
    }
}

/// A pane is called by the title its program gave it, or by its session where there is
/// none. No more than the first 18 characters of that are shown.
pub proof fn law_how_panes_are_called(title: Seq<char>, label: Seq<char>)
    ensures
        called(title, label) == (if title.len() > 0 {
            title
        } else {
            label
        }),
        pane_label(title, label).len() <= 18,
        0 < title.len() <= 18 ==> pane_label(title, label) == title,
        title.len() > 18 ==> pane_label(title, label) == title.take(18),
        title.len() == 0 && label.len() <= 18 ==> pane_label(title, label) == label,
        title.len() == 0 && label.len() > 18 ==> pane_label(title, label) == label.take(18),
{
}

/// The title of the window starts with the session, where there is one that has a name,
/// and ends with the name of the program.
pub proof fn law_what_the_title_says(session: Option<Seq<char>>)
    ensures
        (session is None || session->0.len() == 0) ==> title_text(session) == seq![
            'G',
            '-',
            'T',
            'e',
            'r',
            'm',
            'i',
            'n',
            'a',
            'l',
        ],
        session matches Some(t) && t.len() > 0 ==> title_text(session) == session->0 + seq![
            ' ',
            '鈥',
            '?',
            'G',
            '-',
            'T',
            'e',
            'r',
            'm',
            'i',
            'n',
            'a',
            'l',
        ],
{
    reveal_strlit("G-Terminal");
    reveal_strlit(" 鈥?G-Terminal");
    assert("G-Terminal"@ =~= seq!['G', '-', 'T', 'e', 'r', 'm', 'i', 'n', 'a', 'l']);
    assert(" 鈥?G-Terminal"@ =~= seq![
        ' ',
        '鈥',
        '?',
        'G',
        '-',
        'T',
        'e',
        'r',
        'm',
        'i',
        'n',
        'a',
        'l',
    ]);
}

/// A tab with a color is tinted with it, more so under the pointer and most in front. One
/// without is tinted with the accent of the program there, and plain elsewhere. Only the
/// tab in front is raised and has an outline.
pub proof fn law_how_a_tab_looks(color: Option<TagColor>, active: bool, hovered: bool)
    ensures
        look_of(color, active, hovered).raised == active,
        (look_of(color, active, hovered).outline > 0) == active,
        color matches Some(c) ==> look_of(color, active, hovered).tint == (Tint::Tag { color: c }),
        color is None ==> look_of(color, active, hovered).tint == (if active || hovered {
            Tint::Accent
        } else {
            Tint::Plain
        }),
        color is Some ==> look_of(color, true, hovered).mix == 35 && look_of(
            color,
            true,
            hovered,
        ).outline == 60 && look_of(color, false, true).mix == 22 && look_of(color, false, false).mix
            == 15,
        color is None ==> look_of(color, true, hovered).mix == 16 && look_of(
            color,
            true,
            hovered,
        ).outline == 45 && look_of(color, false, true).mix == 10 && look_of(color, false, false).mix
            == 0,
{
}

} // verus!
