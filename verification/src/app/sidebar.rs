//! The navigation bar: whether it is docked, floats or is hidden, and what its
//! rows say.

use crate::app::{App, AppModel};
use crate::config::profile::{text_copy, RemoteProfile, SerialProfile};
use crate::config::settings::SettingsModel;
use crate::session::{address, address_of};
use crate::text::{decimal, has_char, chars_of, push_decimal, same_letters, trimmed};
use vstd::prelude::*;

verus! {

/// How the navigation bar is shown.
#[derive(Clone, Copy, Debug, PartialEq, Eq, Structural)]
pub enum SidebarMode {
    /// Not at all.
    Hidden,
    /// As a part of the layout.
    Docked,
    /// Over the panes, when the pointer is at the left edge.
    Floating,
}

/// What the button of the navigation bar does.
#[derive(Clone, Copy, Debug, PartialEq, Eq, Structural)]
pub enum SidebarButton {
    /// Lets the bar hide on its own.
    Unpin,
    /// Keeps the bar open.
    Pin,
    /// Hides the bar.
    Hide,
    /// Shows the bar.
    Show,
}

impl AppModel {
    /// How the navigation bar is shown.
    pub open spec fn sidebar_mode(self) -> SidebarMode {
        if !self.settings.sidebar {
            SidebarMode::Hidden
        } else if self.settings.auto_hide_sidebar && !self.sidebar_pinned {
            SidebarMode::Floating
        } else {
            SidebarMode::Docked
        }
    }

    /// What the button of the navigation bar does: in auto-hide mode it pins the
    /// bar open or lets it hover again, else it shows and hides it.
    pub open spec fn sidebar_button(self) -> SidebarButton {
        let docked = self.sidebar_mode() == SidebarMode::Docked;
        if self.settings.auto_hide_sidebar {
            if docked {
                SidebarButton::Unpin
            } else {
                SidebarButton::Pin
            }
        } else if self.settings.sidebar {
            SidebarButton::Hide
        } else {
            SidebarButton::Show
        }
    }

    /// The terminal once the button of the navigation bar was pressed.
    pub open spec fn sidebar_toggled(self) -> AppModel {
        let s = self.settings;
        if s.auto_hide_sidebar && s.sidebar {
            AppModel { sidebar_pinned: !self.sidebar_pinned, ..self }
        } else if s.auto_hide_sidebar {
            AppModel {
                settings: SettingsModel { sidebar: true, ..s },
                sidebar_pinned: true,
                ..self
            }
        } else {
            AppModel { settings: SettingsModel { sidebar: !s.sidebar, ..s }, ..self }
        }
    }
}

impl SidebarButton {
    /// What hovering the button shows.
    pub fn text(self) -> (out: &'static str)
        ensures
            out@ == (match self {
                SidebarButton::Unpin => "改为自动隐藏"@,
                SidebarButton::Pin => "固定展开导航栏"@,
                SidebarButton::Hide => "收起导航栏"@,
                SidebarButton::Show => "展开导航栏"@,
            }),
    {
        match self {
            SidebarButton::Unpin => "改为自动隐藏",
            SidebarButton::Pin => "固定展开导航栏",
            SidebarButton::Hide => "收起导航栏",
            SidebarButton::Show => "展开导航栏",
        }
    }
}

impl App {
    /// How the navigation bar is shown.
    pub fn sidebar_mode(&self) -> (out: SidebarMode)
        ensures
            out == self@.sidebar_mode(),
    {
        if !self.settings.sidebar {
            SidebarMode::Hidden
        } else if self.settings.auto_hide_sidebar && !self.sidebar_pinned {
            SidebarMode::Floating
        } else {
            SidebarMode::Docked
        }
    }

    /// What the button of the navigation bar does.
    pub fn sidebar_button(&self) -> (out: SidebarButton)
        ensures
            out == self@.sidebar_button(),
    {
        let docked = self.sidebar_mode() == SidebarMode::Docked;
        if self.settings.auto_hide_sidebar {
            if docked {
                SidebarButton::Unpin
            } else {
                SidebarButton::Pin
            }
        } else if self.settings.sidebar {
            SidebarButton::Hide
        } else {
            SidebarButton::Show
        }
    }

    /// Presses the button of the navigation bar.
    pub fn toggle_sidebar(&mut self)
        ensures
            final(self)@ == old(self)@.sidebar_toggled(),
    {
        if self.settings.auto_hide_sidebar {
            if self.settings.sidebar {
                self.sidebar_pinned = !self.sidebar_pinned;
            } else {
                self.settings.sidebar = true;
                self.sidebar_pinned = true;
            }
        } else {
            self.settings.sidebar = !self.settings.sidebar;
        }
        assert(self@ =~= old(self)@.sidebar_toggled());
    }
}

/// Whether the floating bar is shown in a frame: while the pointer is at the left
/// edge or over the bar, and while a menu that was opened from it is.
pub fn reveals(over_strip: bool, over_panel: bool, was_shown: bool, menu_open: bool) -> (yes: bool)
    ensures
        yes == (over_strip || over_panel || (was_shown && menu_open)),
{
    over_strip || over_panel || (was_shown && menu_open)
}

/// Pressing the button twice comes back to where it was.
pub proof fn law_the_button_goes_back(app: AppModel)
    requires
        app.settings.sidebar || !app.settings.auto_hide_sidebar,
    ensures
        app.sidebar_toggled().sidebar_toggled().sidebar_mode() == app.sidebar_mode(),
{
}

/// The heading of a group: its name, or that it has none, and how many
/// connections it holds.
pub fn group_heading(name: &str, count: usize) -> (out: String)
    ensures
        out@ == (if name@.len() == 0 {
            "未分组"@
        } else {
            name@
        }) + " ("@ + decimal(count as nat) + ")"@,
{
    let mut out: String = if name.is_empty() {
        text_copy("未分组")
    } else {
        text_copy(name)
    };
    out.append(" (");
    push_decimal(&mut out, count as u64);
    out.append(")");
    out
}

/// What hovering a saved SSH connection shows.
pub fn remote_hint(p: &RemoteProfile) -> (out: String)
    ensures
        out@ == address(p@) + " · 双击连接 / 右键管理"@,
{
    let mut out: String = address_of(p);
    out.append(" · 双击连接 / 右键管理");
    out
}

/// What hovering an imported host shows.
pub fn imported_hint(p: &RemoteProfile) -> (out: String)
    ensures
        out@ == address(p@) + " · 双击连接"@,
{
    let mut out: String = address_of(p);
    out.append(" · 双击连接");
    out
}

/// What hovering a saved serial connection shows.
pub fn serial_hint(p: &SerialProfile) -> (out: String)
    ensures
        out@ == "串口 "@ + (if same_letters(trimmed(p.port@), "auto"@) {
            "auto"@
        } else {
            p.port@
        }) + " · "@ + decimal(p.baud as nat) + " bps · 双击连接 / 右键管理"@,
{
    let mut out = text_copy("串口 ");
    if p.auto() {
        out.append("auto");
    } else {
        out.append(p.port.as_str());
    }
    out.append(" · ");
    push_decimal(&mut out, p.baud as u64);
    out.append(" bps · 双击连接 / 右键管理");
    out
}

/// What hovering a local shell shows. Its path matters where several shells
/// share a name.
pub fn shell_hint(value: &str) -> (out: String)
    ensures
        out@ == (if value@.contains('/') {
            "双击打开 · "@ + value@
        } else {
            "双击打开"@
        }),
{
    if has_char(chars_of(value).as_slice(), '/') {
        let mut out = text_copy("双击打开 · ");
        out.append(value);
        out
    } else {
        text_copy("双击打开")
    }
}

/// The sidebar is hidden where it is switched off. Else it floats where it hides
/// by itself and is not pinned, and stands beside the panes in all other cases.
pub proof fn law_where_the_sidebar_stands(app: AppModel)
    ensures
        app.sidebar_mode() == SidebarMode::Hidden <==> !app.settings.sidebar,
        app.sidebar_mode() == SidebarMode::Floating <==> app.settings.sidebar
            && app.settings.auto_hide_sidebar && !app.sidebar_pinned,
        app.sidebar_mode() == SidebarMode::Docked <==> app.settings.sidebar && (
        !app.settings.auto_hide_sidebar || app.sidebar_pinned),
{
}

/// The button says what it does: it pins and unpins a sidebar that hides by
/// itself, and shows and hides one that does not. It changes nothing else.
pub proof fn law_the_button_does_what_it_says(app: AppModel)
    ensures
        app.sidebar_button() == SidebarButton::Pin ==> app.sidebar_toggled().sidebar_mode()
            == SidebarMode::Docked && app.sidebar_toggled().sidebar_pinned,
        app.sidebar_button() == SidebarButton::Unpin ==> app.sidebar_toggled().sidebar_mode()
            == SidebarMode::Floating,
        app.sidebar_button() == SidebarButton::Hide ==> app.sidebar_toggled().sidebar_mode()
            == SidebarMode::Hidden,
        app.sidebar_button() == SidebarButton::Show ==> app.sidebar_toggled().sidebar_mode()
            == SidebarMode::Docked,
        app.sidebar_button() == SidebarButton::Pin || app.sidebar_button() == SidebarButton::Unpin
            <==> app.settings.auto_hide_sidebar,
        app.sidebar_toggled().settings.auto_hide_sidebar == app.settings.auto_hide_sidebar,
        !app.settings.auto_hide_sidebar ==> app.sidebar_toggled().sidebar_pinned
            == app.sidebar_pinned,
        app.sidebar_toggled() == (AppModel {
            settings: SettingsModel {
                sidebar: app.sidebar_toggled().settings.sidebar,
                ..app.settings
            },
            sidebar_pinned: app.sidebar_toggled().sidebar_pinned,
            ..app
        }),
{
}

} // verus!
