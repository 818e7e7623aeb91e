//! The settings: their defaults, and what becomes of a file that holds only
//! some of them.

use crate::config::profile::{
    remote_models, serial_models, text_copy, RemoteModel, RemoteProfile, SerialModel,
    SerialProfile,
};
use crate::config::search::DEFAULT_SEARCH_ENGINE;
use crate::layout::{saved_models, SavedModel, SavedTab, Single};
use crate::text::{contents, same_str};
use vstd::prelude::*;

verus! {

/// The bit pattern of the smallest font size, 10.
pub const MIN_FONT_SIZE: u32 = 0x4120_0000;

/// The bit pattern of the font size that settings start with, 15.
pub const DEFAULT_FONT_SIZE: u32 = 0x4170_0000;

/// The bit pattern of the largest font size, 28.
pub const MAX_FONT_SIZE: u32 = 0x41e0_0000;

/// The fewest lines of history.
pub const MIN_SCROLLBACK: usize = 100;

/// The lines of history that settings start with.
pub const DEFAULT_SCROLLBACK: usize = 10_000;

/// The most lines of history.
pub const MAX_SCROLLBACK: usize = 50_000;

/// The tag colour of a group.
#[derive(Debug)]
pub struct GroupColor {
    pub group: String,
    /// `#rrggbb`; empty means no colour.
    pub color: String,
}

/// The tag colours of the groups.
#[derive(Debug)]
pub struct GroupColors {
    pub entries: Vec<GroupColor>,
}

/// The colours by group. Where a group occurs twice, the later entry counts.
pub open spec fn color_map(list: Seq<GroupColor>) -> Map<Seq<char>, Seq<char>>
    decreases list.len(),
{
    if list.len() == 0 {
        Map::empty()
    } else {
        color_map(list.drop_last()).insert(list.last().group@, list.last().color@)
    }
}

impl View for GroupColors {
    type V = Map<Seq<char>, Seq<char>>;

    open spec fn view(&self) -> Map<Seq<char>, Seq<char>> {
        color_map(self.entries@)
    }
}

impl GroupColors {
    /// No colours.
    pub fn new() -> (out: GroupColors)
        ensures
            out@ == Map::<Seq<char>, Seq<char>>::empty(),
    {
        GroupColors { entries: Vec::new() }
    }

    /// The colour of a group.
    pub fn get(&self, group: &str) -> (out: Option<&String>)
        ensures
            match out {
                Some(color) => self@.contains_key(group@) && self@[group@] == color@,
                None => !self@.contains_key(group@),
            },
    {
        let mut k: usize = self.entries.len();
        assert(self.entries@.take(k as int) =~= self.entries@);
        while k > 0
            invariant
                k <= self.entries@.len(),
                self@.contains_key(group@) == color_map(self.entries@.take(k as int)).contains_key(
                    group@,
                ),
                self@.contains_key(group@) ==> self@[group@] == color_map(
                    self.entries@.take(k as int),
                )[group@],
            decreases k,
        {
            let ghost seen = self.entries@.take(k as int);
            assert(seen.drop_last() =~= self.entries@.take(k - 1));
            assert(seen.last() == self.entries@[k - 1]);
            if same_str(self.entries[k - 1].group.as_str(), group) {
                return Some(&self.entries[k - 1].color);
            }
            k -= 1;
        }
        None
    }

    /// Takes the colour of a group away.
    pub fn remove(&mut self, group: &str)
        ensures
            final(self)@ == old(self)@.remove(group@),
    {
        let mut kept: Vec<GroupColor> = Vec::new();
        let n: usize = self.entries.len();
        let mut i: usize = 0;
        assert(self.entries@.take(0) =~= Seq::<GroupColor>::empty());
        assert(Map::<Seq<char>, Seq<char>>::empty().remove(group@) =~= Map::empty());
        while i < n
            invariant
                i <= n,
                n == self.entries@.len(),
                self.entries@ == old(self).entries@,
                color_map(kept@) == color_map(self.entries@.take(i as int)).remove(group@),
            decreases n - i,
        {
            let ghost seen = self.entries@.take(i + 1);
            assert(seen.drop_last() =~= self.entries@.take(i as int));
            assert(seen.last() == self.entries@[i as int]);
            let entry: &GroupColor = &self.entries[i];
            let ghost before = kept@;
            if !same_str(entry.group.as_str(), group) {
                kept.push(GroupColor { group: entry.group.clone(), color: entry.color.clone() });
                assert(kept@.drop_last() =~= before);
            }
            assert(color_map(kept@) =~= color_map(seen).remove(group@));
            i += 1;
        }
        assert(self.entries@.take(n as int) =~= self.entries@);
        self.entries = kept;
    }

    /// Gives a group a colour.
    pub fn insert(&mut self, group: &str, color: &str)
        ensures
            final(self)@ == old(self)@.insert(group@, color@),
    {
        self.remove(group);
        let ghost before = self.entries@;
        self.entries.push(GroupColor { group: text_copy(group), color: text_copy(color) });
        assert(self.entries@.drop_last() =~= before);
        assert(self@ =~= old(self)@.insert(group@, color@));
    }
}

/// What the user can set, and what is kept from one start to the next.
#[derive(Debug)]
pub struct Settings {
    pub font_size: Single,
    pub scrollback: usize,
    pub light_theme: bool,
    pub sidebar: bool,
    pub default_shell: String,
    /// Which web search engine the terminal's selection lookup opens.
    pub search_engine: String,
    pub profiles: Vec<RemoteProfile>,
    pub serial_profiles: Vec<SerialProfile>,
    pub groups: Vec<String>,
    /// Tab tag colours by group name. A connection's own colour wins over its
    /// group's; an empty entry means no colour.
    pub group_colors: GroupColors,
    pub copy_on_select: bool,
    pub hide_dotfiles: bool,
    /// Restore the tabs that were open when the program last closed, as
    /// disconnected panes: no shell is started and no host is contacted.
    pub restore_tabs: bool,
    /// Ask before closing the window while a session is still connected.
    pub confirm_on_exit: bool,
    /// Keep the navigation bar out of the layout and reveal it on hover.
    pub auto_hide_sidebar: bool,
    pub workspace: Vec<SavedTab>,
    /// Hosts read from the SSH configuration at startup. Never kept: the file
    /// is read again on every start.
    pub ssh_config_profiles: Vec<RemoteProfile>,
}

/// What the settings hold.
#[verifier::ext_equal]
pub struct SettingsModel {
    pub font_size: Single,
    pub scrollback: usize,
    pub light_theme: bool,
    pub sidebar: bool,
    pub default_shell: Seq<char>,
    pub search_engine: Seq<char>,
    pub profiles: Seq<RemoteModel>,
    pub serial_profiles: Seq<SerialModel>,
    pub groups: Seq<Seq<char>>,
    pub group_colors: Map<Seq<char>, Seq<char>>,
    pub copy_on_select: bool,
    pub hide_dotfiles: bool,
    pub restore_tabs: bool,
    pub confirm_on_exit: bool,
    pub auto_hide_sidebar: bool,
    pub workspace: Seq<SavedModel>,
    pub ssh_config_profiles: Seq<RemoteModel>,
}

impl View for Settings {
    type V = SettingsModel;

    open spec fn view(&self) -> SettingsModel {
        SettingsModel {
            font_size: self.font_size,
            scrollback: self.scrollback,
            light_theme: self.light_theme,
            sidebar: self.sidebar,
            default_shell: self.default_shell@,
            search_engine: self.search_engine@,
            profiles: remote_models(self.profiles@),
            serial_profiles: serial_models(self.serial_profiles@),
            groups: contents(self.groups@),
            group_colors: self.group_colors@,
            copy_on_select: self.copy_on_select,
            hide_dotfiles: self.hide_dotfiles,
            restore_tabs: self.restore_tabs,
            confirm_on_exit: self.confirm_on_exit,
            auto_hide_sidebar: self.auto_hide_sidebar,
            workspace: saved_models(self.workspace@),
            ssh_config_profiles: remote_models(self.ssh_config_profiles@),
        }
    }
}

/// The settings of a first start.
pub open spec fn default_settings(windows: bool) -> SettingsModel {
    SettingsModel {
        font_size: Single { bits: DEFAULT_FONT_SIZE },
        scrollback: DEFAULT_SCROLLBACK,
        light_theme: false,
        sidebar: true,
        default_shell: if windows {
            "powershell"@
        } else {
            "shell"@
        },
        search_engine: "google"@,
        profiles: Seq::empty(),
        serial_profiles: Seq::empty(),
        groups: Seq::empty(),
        group_colors: Map::empty(),
        copy_on_select: false,
        hide_dotfiles: true,
        restore_tabs: true,
        confirm_on_exit: true,
        auto_hide_sidebar: false,
        workspace: Seq::empty(),
        ssh_config_profiles: Seq::empty(),
    }
}

/// The fields of a settings file, each on its own: a field that is missing or
/// cannot be read is none, and so is a tab of the workspace.
#[derive(Debug)]
pub struct SettingsFields {
    pub font_size: Option<Single>,
    pub scrollback: Option<usize>,
    pub light_theme: Option<bool>,
    pub sidebar: Option<bool>,
    pub default_shell: Option<String>,
    pub search_engine: Option<String>,
    pub profiles: Option<Vec<RemoteProfile>>,
    pub serial_profiles: Option<Vec<SerialProfile>>,
    pub groups: Option<Vec<String>>,
    pub group_colors: Option<GroupColors>,
    pub copy_on_select: Option<bool>,
    pub hide_dotfiles: Option<bool>,
    pub restore_tabs: Option<bool>,
    pub confirm_on_exit: Option<bool>,
    pub auto_hide_sidebar: Option<bool>,
    pub workspace: Option<Vec<Option<SavedTab>>>,
}

/// The field, or what stands for it where there is none.
pub open spec fn or_else<T>(field: Option<T>, other: T) -> T {
    match field {
        Some(v) => v,
        None => other,
    }
}

/// The saved tabs that could be read.
pub open spec fn readable(list: Seq<Option<SavedTab>>) -> Seq<SavedModel>
    decreases list.len(),
{
    if list.len() == 0 {
        Seq::empty()
    } else {
        match list.last() {
            Some(tab) => readable(list.drop_last()).push(tab@),
            None => readable(list.drop_last()),
        }
    }
}

/// The settings that a file with these fields stands for: each field that is
/// there, and the default for every other.
pub open spec fn settings_from(fields: SettingsFields, windows: bool) -> SettingsModel {
    let d = default_settings(windows);
    SettingsModel {
        font_size: or_else(fields.font_size, d.font_size),
        scrollback: or_else(fields.scrollback, d.scrollback),
        light_theme: or_else(fields.light_theme, d.light_theme),
        sidebar: or_else(fields.sidebar, d.sidebar),
        default_shell: match fields.default_shell {
            Some(v) => v@,
            None => d.default_shell,
        },
        search_engine: match fields.search_engine {
            Some(v) => v@,
            None => d.search_engine,
        },
        profiles: match fields.profiles {
            Some(v) => remote_models(v@),
            None => d.profiles,
        },
        serial_profiles: match fields.serial_profiles {
            Some(v) => serial_models(v@),
            None => d.serial_profiles,
        },
        groups: match fields.groups {
            Some(v) => contents(v@),
            None => d.groups,
        },
        group_colors: match fields.group_colors {
            Some(v) => v@,
            None => d.group_colors,
        },
        copy_on_select: or_else(fields.copy_on_select, d.copy_on_select),
        hide_dotfiles: or_else(fields.hide_dotfiles, d.hide_dotfiles),
        restore_tabs: or_else(fields.restore_tabs, d.restore_tabs),
        confirm_on_exit: or_else(fields.confirm_on_exit, d.confirm_on_exit),
        auto_hide_sidebar: or_else(fields.auto_hide_sidebar, d.auto_hide_sidebar),
        workspace: match fields.workspace {
            Some(v) => readable(v@),
            None => d.workspace,
        },
        ssh_config_profiles: d.ssh_config_profiles,
    }
}

/// The settings with the font size and the history within their bounds.
pub open spec fn bounded(s: SettingsModel) -> SettingsModel {
    SettingsModel {
        font_size: s.font_size.within(MIN_FONT_SIZE, MAX_FONT_SIZE),
        scrollback: if s.scrollback < MIN_SCROLLBACK {
            MIN_SCROLLBACK
        } else if s.scrollback > MAX_SCROLLBACK {
            MAX_SCROLLBACK
        } else {
            s.scrollback
        },
        ..s
    }
}

/// The field, or what stands for it where there is none.
fn pick<T>(field: Option<T>, other: T) -> (out: T)
    ensures
        out == or_else(field, other),
{
    match field {
        Some(v) => v,
        None => other,
    }
}

/// The saved tabs that could be read.
fn keep_readable(list: Vec<Option<SavedTab>>) -> (out: Vec<SavedTab>)
    ensures
        saved_models(out@) == readable(list@),
{
    let mut out: Vec<SavedTab> = Vec::new();
    let ghost all = list@;
    assert(all.take(0) =~= Seq::<Option<SavedTab>>::empty());
    assert(saved_models(out@) =~= Seq::<SavedModel>::empty());
    for entry in it: list
        invariant
            it.seq() == all,
            saved_models(out@) == readable(all.take(it.index() as int)),
    {
        let ghost k = it.index() as int;
        assert(all.take(k + 1).drop_last() =~= all.take(k));
        assert(all.take(k + 1).last() == entry);
        let ghost before = out@;
        if let Some(tab) = entry {
            out.push(tab);
            assert(saved_models(out@) =~= saved_models(before).push(tab@));
        }
    }
    assert(all.take(all.len() as int) =~= all);
    out
}

impl Settings {
    /// The settings of a first start. The shell that is offered first depends on
    /// the platform.
    pub fn new(windows: bool) -> (out: Settings)
        ensures
            out@ == default_settings(windows),
    {
        let out = Settings {
            font_size: Single { bits: DEFAULT_FONT_SIZE },
            scrollback: DEFAULT_SCROLLBACK,
            light_theme: false,
            sidebar: true,
            default_shell: text_copy(
                if windows {
                    "powershell"
                } else {
                    "shell"
                },
            ),
            search_engine: text_copy(DEFAULT_SEARCH_ENGINE),
            profiles: Vec::new(),
            serial_profiles: Vec::new(),
            groups: Vec::new(),
            group_colors: GroupColors::new(),
            copy_on_select: false,
            hide_dotfiles: true,
            restore_tabs: true,
            confirm_on_exit: true,
            auto_hide_sidebar: false,
            workspace: Vec::new(),
            ssh_config_profiles: Vec::new(),
        };
        assert(out@ =~= default_settings(windows));
        out
    }

    /// The settings that a file with these fields stands for. One field that
    /// cannot be read costs that field, and one tab that cannot be rebuilt costs
    /// that tab: neither takes the saved connections down with it.
    pub fn from_fields(fields: SettingsFields, windows: bool) -> (out: Settings)
        ensures
            out@ == settings_from(fields, windows),
    {
        let base: Settings = Settings::new(windows);
        let workspace: Vec<SavedTab> = match fields.workspace {
            Some(list) => keep_readable(list),
            None => base.workspace,
        };
        let out = Settings {
            font_size: pick(fields.font_size, base.font_size),
            scrollback: pick(fields.scrollback, base.scrollback),
            light_theme: pick(fields.light_theme, base.light_theme),
            sidebar: pick(fields.sidebar, base.sidebar),
            default_shell: pick(fields.default_shell, base.default_shell),
            search_engine: pick(fields.search_engine, base.search_engine),
            profiles: pick(fields.profiles, base.profiles),
            serial_profiles: pick(fields.serial_profiles, base.serial_profiles),
            groups: pick(fields.groups, base.groups),
            group_colors: pick(fields.group_colors, base.group_colors),
            copy_on_select: pick(fields.copy_on_select, base.copy_on_select),
            hide_dotfiles: pick(fields.hide_dotfiles, base.hide_dotfiles),
            restore_tabs: pick(fields.restore_tabs, base.restore_tabs),
            confirm_on_exit: pick(fields.confirm_on_exit, base.confirm_on_exit),
            auto_hide_sidebar: pick(fields.auto_hide_sidebar, base.auto_hide_sidebar),
            workspace,
            ssh_config_profiles: base.ssh_config_profiles,
        };
        assert(out@ =~= settings_from(fields, windows));
        out
    }

    /// Brings the font size and the history within their bounds.
    pub fn bound(&mut self)
        ensures
            final(self)@ == bounded(old(self)@),
    {
        self.font_size = self.font_size.clamp(MIN_FONT_SIZE, MAX_FONT_SIZE);
        if self.scrollback < MIN_SCROLLBACK {
            self.scrollback = MIN_SCROLLBACK;
        } else if self.scrollback > MAX_SCROLLBACK {
            self.scrollback = MAX_SCROLLBACK;
        }
        assert(self@ =~= bounded(old(self)@));
    }
}

/// A field of a settings file that cannot be read does not affect the others:
/// whatever becomes of the workspace, the saved connections stay.
pub proof fn law_connections_survive_the_workspace(
    fields: SettingsFields,
    workspace: Option<Vec<Option<SavedTab>>>,
    windows: bool,
)
    ensures
        settings_from(SettingsFields { workspace, ..fields }, windows) == (SettingsModel {
            workspace: settings_from(
                SettingsFields { workspace, ..fields },
                windows,
            ).workspace,
            ..settings_from(fields, windows)
        }),
{
}

/// Settings within their bounds stay as they are.
pub proof fn law_bounding_twice_changes_nothing(s: SettingsModel)
    ensures
        bounded(bounded(s)) == bounded(s),
{
}

/// The settings of a first start: a font of size 15 and 10000 lines of history, the dark
/// theme with the navigation bar docked, the shell of the platform, Google, dot files
/// hidden, and tabs that come back and ask before they are closed.
pub proof fn law_the_settings_of_a_first_start(windows: bool)
    ensures
        default_settings(windows) == (SettingsModel {
            font_size: Single { bits: 0x4170_0000 },
            scrollback: 10_000,
            light_theme: false,
            sidebar: true,
            default_shell: if windows {
                "powershell"@
            } else {
                "shell"@
            },
            search_engine: "google"@,
            profiles: Seq::empty(),
            serial_profiles: Seq::empty(),
            groups: Seq::empty(),
            group_colors: Map::empty(),
            copy_on_select: false,
            hide_dotfiles: true,
            restore_tabs: true,
            confirm_on_exit: true,
            auto_hide_sidebar: false,
            workspace: Seq::empty(),
            ssh_config_profiles: Seq::empty(),
        }),
{
}

/// Each field of a settings file is taken over where it is there, whatever the others
/// are, and stands at its default where it is not. Hosts of an SSH configuration are
/// never among them.
pub proof fn law_fields_are_taken_over_one_by_one(fields: SettingsFields, windows: bool)
    ensures
        ({
            let s = settings_from(fields, windows);
            let d = default_settings(windows);
            &&& match fields.font_size {
                Some(v) => s.font_size == v,
                None => s.font_size == d.font_size,
            }
            &&& match fields.scrollback {
                Some(v) => s.scrollback == v,
                None => s.scrollback == d.scrollback,
            }
            &&& match fields.light_theme {
                Some(v) => s.light_theme == v,
                None => s.light_theme == d.light_theme,
            }
            &&& match fields.sidebar {
                Some(v) => s.sidebar == v,
                None => s.sidebar == d.sidebar,
            }
            &&& match fields.default_shell {
                Some(v) => s.default_shell == v@,
                None => s.default_shell == d.default_shell,
            }
            &&& match fields.search_engine {
                Some(v) => s.search_engine == v@,
                None => s.search_engine == d.search_engine,
            }
            &&& match fields.profiles {
                Some(v) => s.profiles.len() == v@.len() && forall|i: int|
                    0 <= i < v@.len() ==> #[trigger] s.profiles[i] == v@[i]@,
                None => s.profiles == d.profiles,
            }
            &&& match fields.serial_profiles {
                Some(v) => s.serial_profiles.len() == v@.len() && forall|i: int|
                    0 <= i < v@.len() ==> #[trigger] s.serial_profiles[i] == v@[i]@,
                None => s.serial_profiles == d.serial_profiles,
            }
            &&& match fields.groups {
                Some(v) => s.groups.len() == v@.len() && forall|i: int|
                    0 <= i < v@.len() ==> #[trigger] s.groups[i] == v@[i]@,
                None => s.groups == d.groups,
            }
            &&& match fields.group_colors {
                Some(v) => s.group_colors == v@,
                None => s.group_colors == d.group_colors,
            }
            &&& match fields.copy_on_select {
                Some(v) => s.copy_on_select == v,
                None => s.copy_on_select == d.copy_on_select,
            }
            &&& match fields.hide_dotfiles {
                Some(v) => s.hide_dotfiles == v,
                None => s.hide_dotfiles == d.hide_dotfiles,
            }
            &&& match fields.restore_tabs {
                Some(v) => s.restore_tabs == v,
                None => s.restore_tabs == d.restore_tabs,
            }
            &&& match fields.confirm_on_exit {
                Some(v) => s.confirm_on_exit == v,
                None => s.confirm_on_exit == d.confirm_on_exit,
            }
            &&& match fields.auto_hide_sidebar {
                Some(v) => s.auto_hide_sidebar == v,
                None => s.auto_hide_sidebar == d.auto_hide_sidebar,
            }
            &&& fields.workspace is None ==> s.workspace == d.workspace
            &&& s.ssh_config_profiles.len() == 0
        }),
{
}

/// A saved tab that cannot be read costs that tab alone: the others stay, in their
/// order.
pub proof fn law_one_tab_costs_itself_alone(list: Seq<Option<SavedTab>>, entry: Option<SavedTab>)
    ensures
        readable(Seq::empty()) == Seq::<SavedModel>::empty(),
        readable(list.push(entry)) == (match entry {
            Some(tab) => readable(list).push(tab@),
            None => readable(list),
        }),
{
    assert(list.push(entry).drop_last() =~= list);
}

/// The bounds of the settings: the font size goes from 10 to 28, with everything below
/// brought up and everything above brought down, and the history from 100 lines to
/// 50000. Nothing else changes.
pub proof fn law_the_bounds_of_the_settings(s: SettingsModel)
    ensures
        bounded(s) == (SettingsModel {
            font_size: bounded(s).font_size,
            scrollback: bounded(s).scrollback,
            ..s
        }),
        bounded(s).scrollback == (if s.scrollback < 100 {
            100
        } else if s.scrollback > 50_000 {
            50_000
        } else {
            s.scrollback as int
        }),
        0x4120_0000 <= s.font_size.bits <= 0x41e0_0000 ==> bounded(s).font_size == s.font_size,
        s.font_size.bits < 0x4120_0000 || 0x8000_0000 <= s.font_size.bits <= 0xff80_0000
            ==> bounded(s).font_size.bits == 0x4120_0000,
        0x41e0_0000 < s.font_size.bits <= 0x7f80_0000 ==> bounded(s).font_size.bits == 0x41e0_0000,
{
}

/// The colour of a group is the one that it was last given.
pub proof fn law_the_last_color_counts(list: Seq<GroupColor>, entry: GroupColor, group: Seq<char>)
    ensures
        color_map(list.push(entry)).contains_key(entry.group@),
        color_map(list.push(entry))[entry.group@] == entry.color@,
        group != entry.group@ ==> color_map(list.push(entry)).contains_key(group) == color_map(
            list,
        ).contains_key(group) && (color_map(list).contains_key(group) ==> color_map(
            list.push(entry),
        )[group] == color_map(list)[group]),
        !color_map(Seq::empty()).contains_key(group),
{
    assert(list.push(entry).drop_last() =~= list);
}

/// The model of the settings holds each of them.
pub proof fn law_models_hold_all_settings(s: Settings)
    ensures
        s@.font_size == s.font_size && s@.scrollback == s.scrollback,
        s@.light_theme == s.light_theme && s@.sidebar == s.sidebar,
        s@.default_shell == s.default_shell@ && s@.search_engine == s.search_engine@,
        s@.profiles == remote_models(s.profiles@),
        s@.serial_profiles == serial_models(s.serial_profiles@),
        s@.groups.len() == s.groups@.len(),
        forall|i: int| 0 <= i < s.groups@.len() ==> #[trigger] s@.groups[i] == s.groups@[i]@,
        s@.group_colors == s.group_colors@,
        s@.copy_on_select == s.copy_on_select && s@.hide_dotfiles == s.hide_dotfiles,
        s@.restore_tabs == s.restore_tabs && s@.confirm_on_exit == s.confirm_on_exit,
        s@.auto_hide_sidebar == s.auto_hide_sidebar,
        s@.workspace == saved_models(s.workspace@),
        s@.ssh_config_profiles == remote_models(s.ssh_config_profiles@),
{
}

} // verus!
