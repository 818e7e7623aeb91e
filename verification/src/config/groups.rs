//! The groups of the saved connections, and how they are listed.

use crate::config::connections::holds_text;
use crate::config::profile::{
    remote_models, serial_models, text_copy, RemoteModel, RemoteProfile, SerialModel,
    SerialProfile,
};
use crate::config::settings::{Settings, SettingsModel};
use crate::text::{chars_of, contents, same_str, string_of, trim, trimmed};
use vstd::prelude::*;

verus! {

/// The connections, with those of one group moved to another.
pub open spec fn remotes_moved(list: Seq<RemoteModel>, from: Seq<char>, to: Seq<char>) -> Seq<
    RemoteModel,
> {
    list.map_values(
        |p: RemoteModel|
            if p.group == from {
                RemoteModel { group: to, ..p }
            } else {
                p
            },
    )
}

/// The serial connections, with those of one group moved to another.
pub open spec fn serials_moved(list: Seq<SerialModel>, from: Seq<char>, to: Seq<char>) -> Seq<
    SerialModel,
> {
    list.map_values(
        |p: SerialModel|
            if p.group == from {
                SerialModel { group: to, ..p }
            } else {
                p
            },
    )
}

/// The settings with one more group. A blank name and one that is there already
/// add nothing.
pub open spec fn group_added(s: SettingsModel, name: Seq<char>) -> SettingsModel {
    if trimmed(name).len() == 0 || s.groups.contains(trimmed(name)) {
        s
    } else {
        SettingsModel { groups: s.groups.push(trimmed(name)), ..s }
    }
}

/// The settings with a group under another name. Its connections and its colour
/// follow.
pub open spec fn group_renamed(s: SettingsModel, i: int, new: Seq<char>) -> SettingsModel {
    let old = s.groups[i];
    SettingsModel {
        groups: s.groups.update(i, new),
        profiles: remotes_moved(s.profiles, old, new),
        serial_profiles: serials_moved(s.serial_profiles, old, new),
        group_colors: if s.group_colors.contains_key(old) {
            s.group_colors.remove(old).insert(new, s.group_colors[old])
        } else {
            s.group_colors
        },
        ..s
    }
}

/// The settings without a group. Its connections are in none then.
pub open spec fn group_removed(s: SettingsModel, i: int) -> SettingsModel {
    let name = s.groups[i];
    SettingsModel {
        groups: s.groups.remove(i),
        profiles: remotes_moved(s.profiles, name, Seq::empty()),
        serial_profiles: serials_moved(s.serial_profiles, name, Seq::empty()),
        group_colors: s.group_colors.remove(name),
        ..s
    }
}

/// The colours once each group has the one at its place in the list. An empty
/// one takes the colour away.
pub open spec fn recolored(
    map: Map<Seq<char>, Seq<char>>,
    groups: Seq<Seq<char>>,
    colors: Seq<Seq<char>>,
) -> Map<Seq<char>, Seq<char>>
    decreases groups.len(),
{
    if groups.len() == 0 || groups.len() > colors.len() {
        map
    } else {
        let before = recolored(map, groups.drop_last(), colors.take(groups.len() - 1));
        let color = colors[groups.len() - 1];
        if color.len() == 0 {
            before.remove(groups.last())
        } else {
            before.insert(groups.last(), color)
        }
    }
}

/// The groups with those that only a connection names.
pub open spec fn with_groups(names: Seq<Seq<char>>, used: Seq<Seq<char>>) -> Seq<Seq<char>>
    decreases used.len(),
{
    if used.len() == 0 {
        names
    } else {
        let before = with_groups(names, used.drop_last());
        if used.last().len() == 0 || before.contains(used.last()) {
            before
        } else {
            before.push(used.last())
        }
    }
}

/// The groups that the connections name, SSH before serial.
pub open spec fn used_groups(s: SettingsModel) -> Seq<Seq<char>> {
    s.profiles.map_values(|p: RemoteModel| p.group) + s.serial_profiles.map_values(
        |p: SerialModel| p.group,
    )
}

/// The groups in the order they are listed; the empty name, for the connections
/// in none, comes first.
pub open spec fn listed_groups(s: SettingsModel) -> Seq<Seq<char>> {
    seq![Seq::<char>::empty()] + with_groups(s.groups, used_groups(s))
}

/// The connections of a group, by their indices.
pub open spec fn remote_members(list: Seq<RemoteModel>, group: Seq<char>) -> Seq<usize>
    decreases list.len(),
{
    if list.len() == 0 {
        Seq::empty()
    } else if list.last().group == group {
        remote_members(list.drop_last(), group).push((list.len() - 1) as usize)
    } else {
        remote_members(list.drop_last(), group)
    }
}

/// The serial connections of a group, by their indices.
pub open spec fn serial_members(list: Seq<SerialModel>, group: Seq<char>) -> Seq<usize>
    decreases list.len(),
{
    if list.len() == 0 {
        Seq::empty()
    } else if list.last().group == group {
        serial_members(list.drop_last(), group).push((list.len() - 1) as usize)
    } else {
        serial_members(list.drop_last(), group)
    }
}

/// A group as it is listed.
#[derive(Debug)]
pub struct GroupRow {
    /// The name; empty for the connections in no group.
    pub name: String,
    /// The SSH connections, by their indices.
    pub profiles: Vec<usize>,
    /// The serial connections, by their indices.
    pub serials: Vec<usize>,
}

/// What a listed group holds.
#[verifier::ext_equal]
pub struct RowModel {
    pub name: Seq<char>,
    pub profiles: Seq<usize>,
    pub serials: Seq<usize>,
}

impl View for GroupRow {
    type V = RowModel;

    open spec fn view(&self) -> RowModel {
        RowModel { name: self.name@, profiles: self.profiles@, serials: self.serials@ }
    }
}

/// What the listed groups hold.
pub open spec fn row_models(list: Seq<GroupRow>) -> Seq<RowModel> {
    list.map_values(|r: GroupRow| r@)
}

/// A group with its connections.
pub open spec fn row_of(s: SettingsModel, group: Seq<char>) -> RowModel {
    RowModel {
        name: group,
        profiles: remote_members(s.profiles, group),
        serials: serial_members(s.serial_profiles, group),
    }
}

/// Whether a group is left out: the connections in no group are listed only
/// where there are some, or where there is no connection at all.
pub open spec fn left_out(s: SettingsModel, row: RowModel) -> bool {
    &&& row.name.len() == 0
    &&& row.profiles.len() == 0
    &&& row.serials.len() == 0
    &&& s.profiles.len() > 0 || s.serial_profiles.len() > 0
}

/// The rows for the groups of a list.
pub open spec fn rows(s: SettingsModel, groups: Seq<Seq<char>>) -> Seq<RowModel>
    decreases groups.len(),
{
    if groups.len() == 0 {
        Seq::empty()
    } else {
        let before = rows(s, groups.drop_last());
        let row = row_of(s, groups.last());
        if left_out(s, row) {
            before
        } else {
            before.push(row)
        }
    }
}

/// Moves the connections of one group to another.
fn move_remotes(list: &mut Vec<RemoteProfile>, from: &str, to: &str)
    ensures
        remote_models(final(list)@) == remotes_moved(remote_models(old(list)@), from@, to@),
{
    let ghost all = remote_models(list@);
    let n: usize = list.len();
    let mut out: Vec<RemoteProfile> = Vec::new();
    let mut i: usize = 0;
    while i < n
        invariant
            i <= n,
            n == list@.len(),
            all == remote_models(list@),
            out@.len() == i,
            forall|k: int|
                0 <= k < i ==> (#[trigger] out@[k])@ == remotes_moved(all, from@, to@)[k],
        decreases n - i,
    {
        let mut p: RemoteProfile = list[i].duplicate();
        assert(p@ == all[i as int]);
        let ghost was = p@;
        if same_str(p.group.as_str(), from) {
            p.group = text_copy(to);
            assert(p@ =~= RemoteModel { group: to@, ..was });
        }
        out.push(p);
        i += 1;
    }
    *list = out;
    assert(remote_models(list@) =~= remotes_moved(all, from@, to@));
}

/// Moves the serial connections of one group to another.
fn move_serials(list: &mut Vec<SerialProfile>, from: &str, to: &str)
    ensures
        serial_models(final(list)@) == serials_moved(serial_models(old(list)@), from@, to@),
{
    let ghost all = serial_models(list@);
    let n: usize = list.len();
    let mut out: Vec<SerialProfile> = Vec::new();
    let mut i: usize = 0;
    while i < n
        invariant
            i <= n,
            n == list@.len(),
            all == serial_models(list@),
            out@.len() == i,
            forall|k: int|
                0 <= k < i ==> (#[trigger] out@[k])@ == serials_moved(all, from@, to@)[k],
        decreases n - i,
    {
        let mut p: SerialProfile = list[i].duplicate();
        assert(p@ == all[i as int]);
        let ghost was = p@;
        if same_str(p.group.as_str(), from) {
            p.group = text_copy(to);
            assert(p@ =~= SerialModel { group: to@, ..was });
        }
        out.push(p);
        i += 1;
    }
    *list = out;
    assert(serial_models(list@) =~= serials_moved(all, from@, to@));
}

impl Settings {
    /// Adds a group. Says whether there is one more now.
    pub fn add_group(&mut self, name: &str) -> (added: bool)
        ensures
            final(self)@ == group_added(old(self)@, name@),
            added == (trimmed(name@).len() > 0 && !old(self)@.groups.contains(trimmed(name@))),
    {
        let ghost before = self@;
        let chars: Vec<char> = chars_of(name);
        let name: String = string_of(trim(chars.as_slice()));
        if name.as_str().is_empty() || holds_text(&self.groups, name.as_str()) {
            return false;
        }
        let ghost list = self.groups@;
        self.groups.push(name);
        assert(contents(self.groups@) =~= contents(list).push(name@));
        assert(self@ =~= SettingsModel { groups: before.groups.push(name@), ..before });
        true
    }

    /// Gives a group another name. Its connections and its colour follow.
    pub fn rename_group(&mut self, i: usize, new: &str)
        requires
            i < old(self).groups@.len(),
        ensures
            final(self)@ == group_renamed(old(self)@, i as int, new@),
    {
        let ghost before = self@;
        let name: String = self.groups[i].clone();
        let ghost list = self.groups@;
        self.groups.set(i, text_copy(new));
        assert(contents(self.groups@) =~= contents(list).update(i as int, new@));
        move_remotes(&mut self.profiles, name.as_str(), new);
        move_serials(&mut self.serial_profiles, name.as_str(), new);
        let color: Option<String> = match self.group_colors.get(name.as_str()) {
            Some(color) => Some(color.clone()),
            None => None,
        };
        if let Some(color) = color {
            self.group_colors.remove(name.as_str());
            self.group_colors.insert(new, color.as_str());
        }
        assert(self@ =~= group_renamed(before, i as int, new@));
    }

    /// Removes a group. Its connections are in none then.
    pub fn remove_group(&mut self, i: usize)
        requires
            i < old(self).groups@.len(),
        ensures
            final(self)@ == group_removed(old(self)@, i as int),
    {
        let ghost before = self@;
        let ghost list = self.groups@;
        let name: String = self.groups.remove(i);
        assert(contents(self.groups@) =~= contents(list).remove(i as int));
        self.group_colors.remove(name.as_str());
        proof {
            reveal_strlit("");
            assert(""@ =~= Seq::<char>::empty());
        }
        move_remotes(&mut self.profiles, name.as_str(), "");
        move_serials(&mut self.serial_profiles, name.as_str(), "");
        assert(self@ =~= group_removed(before, i as int));
    }

    /// Gives each group the colour at its place in the list. An empty one takes
    /// the colour away.
    pub fn recolor_groups(&mut self, colors: &Vec<String>)
        requires
            colors@.len() == old(self).groups@.len(),
        ensures
            final(self)@ == (SettingsModel {
                group_colors: recolored(
                    old(self)@.group_colors,
                    old(self)@.groups,
                    contents(colors@),
                ),
                ..old(self)@
            }),
    {
        let ghost before = self@;
        let ghost names = before.groups;
        let ghost list = contents(colors@);
        let n: usize = self.groups.len();
        let mut i: usize = 0;
        while i < n
            invariant
                i <= n,
                n == self.groups@.len(),
                n == colors@.len(),
                names == before.groups,
                list == contents(colors@),
                names.len() == n,
                self@ == (SettingsModel {
                    group_colors: recolored(
                        before.group_colors,
                        names.take(i as int),
                        list.take(i as int),
                    ),
                    ..before
                }),
            decreases n - i,
        {
            let ghost was = self@;
            proof {
                let g = names.take(i + 1);
                assert(g.drop_last() =~= names.take(i as int));
                assert(list.take(i + 1).take(i as int) =~= list.take(i as int));
                assert(g.last() == self.groups@[i as int]@);
            }
            let name: String = self.groups[i].clone();
            if colors[i].as_str().is_empty() {
                self.group_colors.remove(name.as_str());
            } else {
                self.group_colors.insert(name.as_str(), colors[i].as_str());
            }
            assert(self@ =~= SettingsModel { group_colors: self@.group_colors, ..was });
            i += 1;
        }
        assert(names.take(n as int) =~= names);
        assert(list.take(n as int) =~= list);
    }

    /// The groups that are listed, with their connections.
    pub fn group_rows(&self) -> (out: Vec<GroupRow>)
        ensures
            row_models(out@) == rows(self@, listed_groups(self@)),
    {
        let names: Vec<String> = self.group_names();
        let any = self.profiles.len() > 0 || self.serial_profiles.len() > 0;
        let n: usize = names.len();
        let ghost all = contents(names@);
        let mut out: Vec<GroupRow> = Vec::new();
        let mut i: usize = 0;
        assert(all.take(0) =~= Seq::<Seq<char>>::empty());
        assert(row_models(out@) =~= Seq::<RowModel>::empty());
        while i < n
            invariant
                i <= n,
                n == names@.len(),
                all == contents(names@),
                any == (self@.profiles.len() > 0 || self@.serial_profiles.len() > 0),
                row_models(out@) == rows(self@, all.take(i as int)),
            decreases n - i,
        {
            assert(all.take(i + 1).drop_last() =~= all.take(i as int));
            assert(all.take(i + 1).last() == names@[i as int]@);
            let name: String = names[i].clone();
            let profiles: Vec<usize> = remote_indices(&self.profiles, name.as_str());
            let serials: Vec<usize> = serial_indices(&self.serial_profiles, name.as_str());
            let hidden = name.as_str().is_empty() && profiles.len() == 0 && serials.len() == 0
                && any;
            if !hidden {
                let row = GroupRow { name, profiles, serials };
                assert(row@ =~= row_of(self@, all[i as int]));
                let ghost before = out@;
                out.push(row);
                assert(row_models(out@) =~= row_models(before).push(row@));
            }
            i += 1;
        }
        assert(all.take(n as int) =~= all);
        out
    }

    /// The groups in the order they are listed.
    fn group_names(&self) -> (out: Vec<String>)
        ensures
            contents(out@) == listed_groups(self@),
    {
        let mut names: Vec<String> = Vec::new();
        let n: usize = self.groups.len();
        for i in 0..n
            invariant
                n == self.groups@.len(),
                contents(names@) == self@.groups.take(i as int),
        {
            let ghost before = names@;
            names.push(self.groups[i].clone());
            assert(contents(names@) =~= contents(before).push(self@.groups[i as int]));
            assert(self@.groups.take(i + 1) =~= self@.groups.take(i as int).push(
                self@.groups[i as int],
            ));
        }
        assert(self@.groups.take(n as int) =~= self@.groups);
        let ghost used = used_groups(self@);
        let ghost none = Seq::<Seq<char>>::empty();
        let m: usize = self.profiles.len();
        assert(used.take(0) =~= none);
        let mut k: usize = 0;
        while k < m
            invariant
                k <= m,
                m == self.profiles@.len(),
                used == used_groups(self@),
                contents(names@) == with_groups(self@.groups, used.take(k as int)),
            decreases m - k,
        {
            assert(used.take(k + 1).drop_last() =~= used.take(k as int));
            assert(used.take(k + 1).last() == self.profiles@[k as int].group@) by {
                assert(used[k as int] == self@.profiles[k as int].group);
            }
            add_name(&mut names, self.profiles[k].group.as_str());
            k += 1;
        }
        let q: usize = self.serial_profiles.len();
        let mut j: usize = 0;
        while j < q
            invariant
                j <= q,
                m == self.profiles@.len(),
                q == self.serial_profiles@.len(),
                used == used_groups(self@),
                contents(names@) == with_groups(self@.groups, used.take(m + j)),
            decreases q - j,
        {
            assert(used.take(m + j + 1).drop_last() =~= used.take(m + j));
            assert(used.take(m + j + 1).last() == self.serial_profiles@[j as int].group@) by {
                assert(used[m + j] == self@.serial_profiles[j as int].group);
            }
            add_name(&mut names, self.serial_profiles[j].group.as_str());
            j += 1;
        }
        assert(used.take(m + q) =~= used);
        let mut out: Vec<String> = Vec::new();
        out.push(String::new());
        let ghost tail = contents(names@);
        assert(contents(out@) =~= seq![Seq::<char>::empty()]);
        let ghost head = out@;
        let ghost rest = names@;
        out.append(&mut names);
        assert(contents(out@) =~= contents(head) + contents(rest));
        out
    }
}

/// Adds a name that is not empty and not there yet.
fn add_name(names: &mut Vec<String>, name: &str)
    ensures
        contents(final(names)@) == (if name@.len() == 0 || contents(old(names)@).contains(name@) {
            contents(old(names)@)
        } else {
            contents(old(names)@).push(name@)
        }),
{
    if !name.is_empty() && !holds_text(names, name) {
        let ghost before = names@;
        names.push(text_copy(name));
        assert(contents(names@) =~= contents(before).push(name@));
    }
}

/// The connections of a group, by their indices.
fn remote_indices(list: &Vec<RemoteProfile>, group: &str) -> (out: Vec<usize>)
    ensures
        out@ == remote_members(remote_models(list@), group@),
{
    let n: usize = list.len();
    let ghost all = remote_models(list@);
    let mut out: Vec<usize> = Vec::new();
    let mut i: usize = 0;
    assert(all.take(0) =~= Seq::<RemoteModel>::empty());
    while i < n
        invariant
            i <= n,
            n == list@.len(),
            all == remote_models(list@),
            out@ == remote_members(all.take(i as int), group@),
        decreases n - i,
    {
        assert(all.take(i + 1).drop_last() =~= all.take(i as int));
        assert(all.take(i + 1).last() == list@[i as int]@);
        if same_str(list[i].group.as_str(), group) {
            out.push(i);
        }
        i += 1;
    }
    assert(all.take(n as int) =~= all);
    out
}

/// The serial connections of a group, by their indices.
fn serial_indices(list: &Vec<SerialProfile>, group: &str) -> (out: Vec<usize>)
    ensures
        out@ == serial_members(serial_models(list@), group@),
{
    let n: usize = list.len();
    let ghost all = serial_models(list@);
    let mut out: Vec<usize> = Vec::new();
    let mut i: usize = 0;
    assert(all.take(0) =~= Seq::<SerialModel>::empty());
    while i < n
        invariant
            i <= n,
            n == list@.len(),
            all == serial_models(list@),
            out@ == serial_members(all.take(i as int), group@),
        decreases n - i,
    {
        assert(all.take(i + 1).drop_last() =~= all.take(i as int));
        assert(all.take(i + 1).last() == list@[i as int]@);
        if same_str(list[i].group.as_str(), group) {
            out.push(i);
        }
        i += 1;
    }
    assert(all.take(n as int) =~= all);
    out
}

/// Renaming a group loses no connection and leaves none behind: every connection
/// stays as it was but for its group, and none is in the old group any more
/// unless the name is the same.
pub proof fn law_renaming_moves_every_connection(s: SettingsModel, i: int, new: Seq<char>)
    requires
        0 <= i < s.groups.len(),
    ensures
        group_renamed(s, i, new).profiles.len() == s.profiles.len(),
        group_renamed(s, i, new).serial_profiles.len() == s.serial_profiles.len(),
        new != s.groups[i] ==> forall|k: int|
            0 <= k < s.profiles.len() ==> (#[trigger] group_renamed(s, i, new).profiles[k]).group
                != s.groups[i],
        new != s.groups[i] ==> forall|k: int|
            0 <= k < s.serial_profiles.len() ==> (#[trigger] group_renamed(
                s,
                i,
                new,
            ).serial_profiles[k]).group != s.groups[i],
        forall|k: int|
            0 <= k < s.profiles.len() ==> (#[trigger] group_renamed(s, i, new).profiles[k]) == (
            RemoteModel { group: group_renamed(s, i, new).profiles[k].group, ..s.profiles[k] }),
        forall|k: int|
            0 <= k < s.serial_profiles.len() ==> (#[trigger] group_renamed(
                s,
                i,
                new,
            ).serial_profiles[k]) == (SerialModel {
                group: group_renamed(s, i, new).serial_profiles[k].group,
                ..s.serial_profiles[k]
            }),
{
}

/// No connection is in a group that was removed, unless the group had no name.
pub proof fn law_removing_a_group_empties_it(s: SettingsModel, i: int, k: int)
    requires
        0 <= i < s.groups.len(),
        s.groups[i].len() > 0,
    ensures
        0 <= k < s.profiles.len() ==> group_removed(s, i).profiles[k].group != s.groups[i],
        0 <= k < s.serial_profiles.len() ==> group_removed(s, i).serial_profiles[k].group
            != s.groups[i],
        !group_removed(s, i).group_colors.contains_key(s.groups[i]),
{
}

proof fn lemma_with_groups(names: Seq<Seq<char>>, used: Seq<Seq<char>>, g: Seq<char>)
    requires
        used.contains(g),
        g.len() > 0,
    ensures
        with_groups(names, used).contains(g),
    decreases used.len(),
{
    let rest = used.drop_last();
    let before = with_groups(names, rest);
    let k = choose|k: int| 0 <= k < used.len() && used[k] == g;
    if k < rest.len() {
        assert(rest[k] == g);
        lemma_with_groups(names, rest, g);
        let j = choose|j: int| 0 <= j < before.len() && before[j] == g;
        assert(before.push(used.last())[j] == g);
    } else {
        assert(before.push(g).last() == g);
        assert(before.push(g)[before.len() as int] == g);
    }
}

proof fn lemma_rows(s: SettingsModel, groups: Seq<Seq<char>>, g: Seq<char>)
    requires
        groups.contains(g),
        !left_out(s, row_of(s, g)),
    ensures
        rows(s, groups).contains(row_of(s, g)),
    decreases groups.len(),
{
    let rest = groups.drop_last();
    let before = rows(s, rest);
    let row = row_of(s, g);
    let k = choose|k: int| 0 <= k < groups.len() && groups[k] == g;
    if k < rest.len() {
        assert(rest[k] == g);
        lemma_rows(s, rest, g);
        let j = choose|j: int| 0 <= j < before.len() && before[j] == row;
        assert(before.push(row_of(s, groups.last()))[j] == row);
    } else {
        assert(before.push(row)[before.len() as int] == row);
    }
}

proof fn lemma_remote_members(list: Seq<RemoteModel>, i: int)
    requires
        0 <= i < list.len() <= usize::MAX,
    ensures
        remote_members(list, list[i].group).contains(i as usize),
    decreases list.len(),
{
    let rest = list.drop_last();
    let before = remote_members(rest, list[i].group);
    if i < rest.len() {
        lemma_remote_members(rest, i);
        let j = choose|j: int| 0 <= j < before.len() && before[j] == i as usize;
        assert(before.push((list.len() - 1) as usize)[j] == i as usize);
    } else {
        assert(before.push(i as usize)[before.len() as int] == i as usize);
    }
}

proof fn lemma_serial_members(list: Seq<SerialModel>, i: int)
    requires
        0 <= i < list.len() <= usize::MAX,
    ensures
        serial_members(list, list[i].group).contains(i as usize),
    decreases list.len(),
{
    let rest = list.drop_last();
    let before = serial_members(rest, list[i].group);
    if i < rest.len() {
        lemma_serial_members(rest, i);
        let j = choose|j: int| 0 <= j < before.len() && before[j] == i as usize;
        assert(before.push((list.len() - 1) as usize)[j] == i as usize);
    } else {
        assert(before.push(i as usize)[before.len() as int] == i as usize);
    }
}

/// Every saved connection is listed, under the group that it names.
pub proof fn law_every_connection_is_listed(s: SettingsModel, i: int)
    requires
        0 <= i < s.profiles.len() <= usize::MAX,
    ensures
        rows(s, listed_groups(s)).contains(row_of(s, s.profiles[i].group)),
        row_of(s, s.profiles[i].group).profiles.contains(i as usize),
{
    let g = s.profiles[i].group;
    lemma_remote_members(s.profiles, i);
    if g.len() > 0 {
        assert(used_groups(s)[i] == g);
        lemma_with_groups(s.groups, used_groups(s), g);
        let tail = with_groups(s.groups, used_groups(s));
        let k = choose|k: int| 0 <= k < tail.len() && tail[k] == g;
        assert(listed_groups(s)[k + 1] == g);
    } else {
        assert(g =~= Seq::<char>::empty());
        assert(listed_groups(s)[0] == g);
    }
    lemma_rows(s, listed_groups(s), g);
}

/// Every saved serial connection is listed, under the group that it names.
pub proof fn law_every_serial_connection_is_listed(s: SettingsModel, i: int)
    requires
        0 <= i < s.serial_profiles.len() <= usize::MAX,
    ensures
        rows(s, listed_groups(s)).contains(row_of(s, s.serial_profiles[i].group)),
        row_of(s, s.serial_profiles[i].group).serials.contains(i as usize),
{
    let g = s.serial_profiles[i].group;
    lemma_serial_members(s.serial_profiles, i);
    if g.len() > 0 {
        assert(used_groups(s)[s.profiles.len() + i] == g);
        lemma_with_groups(s.groups, used_groups(s), g);
        let tail = with_groups(s.groups, used_groups(s));
        let k = choose|k: int| 0 <= k < tail.len() && tail[k] == g;
        assert(listed_groups(s)[k + 1] == g);
    } else {
        assert(g =~= Seq::<char>::empty());
        assert(listed_groups(s)[0] == g);
    }
    lemma_rows(s, listed_groups(s), g);
}

/// A new group stands behind the others, under its name without the white space around
/// it. A blank name, and one that is there already, change nothing.
pub proof fn law_new_groups_come_last(s: SettingsModel, name: Seq<char>)
    ensures
        trimmed(name).len() > 0 && !s.groups.contains(trimmed(name)) ==> group_added(s, name) == (
        SettingsModel { groups: s.groups.push(trimmed(name)), ..s }),
        trimmed(name).len() == 0 || s.groups.contains(trimmed(name)) ==> group_added(s, name) == s,
{
}

/// What a rename and a removal do to a connection: one of the group is in the group of
/// the new name then, or in none, and one of another group stays where it is. The order
/// of the groups stays, and the colour goes along with the name.
pub proof fn law_connections_follow_their_group(s: SettingsModel, i: int, new: Seq<char>, k: int)
    requires
        0 <= i < s.groups.len(),
    ensures
        ({
            let r = group_renamed(s, i, new);
            let d = group_removed(s, i);
            let old = s.groups[i];
            &&& r.groups.len() == s.groups.len() && r.groups[i] == new
            &&& 0 <= k < s.groups.len() && k != i ==> r.groups[k] == s.groups[k]
            &&& 0 <= k < s.profiles.len() ==> r.profiles[k].group == (if s.profiles[k].group
                == old {
                new
            } else {
                s.profiles[k].group
            }) && d.profiles[k] == (RemoteModel {
                group: if s.profiles[k].group == old {
                    Seq::empty()
                } else {
                    s.profiles[k].group
                },
                ..s.profiles[k]
            })
            &&& 0 <= k < s.serial_profiles.len() ==> r.serial_profiles[k].group == (
            if s.serial_profiles[k].group == old {
                new
            } else {
                s.serial_profiles[k].group
            }) && d.serial_profiles[k] == (SerialModel {
                group: if s.serial_profiles[k].group == old {
                    Seq::empty()
                } else {
                    s.serial_profiles[k].group
                },
                ..s.serial_profiles[k]
            })
            &&& d.groups == s.groups.remove(i)
            &&& d.profiles.len() == s.profiles.len() && d.serial_profiles.len()
                == s.serial_profiles.len()
            &&& s.group_colors.contains_key(old) ==> r.group_colors.contains_key(new)
                && r.group_colors[new] == s.group_colors[old]
            &&& new != old && s.group_colors.contains_key(old) ==> !r.group_colors.contains_key(
                old,
            )
            &&& forall|g: Seq<char>|
                g != old && g != new ==> (#[trigger] r.group_colors.contains_key(g)
                    == s.group_colors.contains_key(g)) && (s.group_colors.contains_key(g)
                    ==> r.group_colors[g] == s.group_colors[g])
            &&& forall|g: Seq<char>|
                g != old ==> (#[trigger] d.group_colors.contains_key(g)
                    == s.group_colors.contains_key(g)) && (s.group_colors.contains_key(g)
                    ==> d.group_colors[g] == s.group_colors[g])
        }),
{
}

/// Each group gets the colour at its place in the list, and loses its own where that is
/// empty; a group that is not in the list keeps what it has.
pub proof fn law_groups_get_their_colors(
    map: Map<Seq<char>, Seq<char>>,
    groups: Seq<Seq<char>>,
    colors: Seq<Seq<char>>,
    g: Seq<char>,
)
    requires
        groups.len() <= colors.len(),
        groups.no_duplicates(),
    ensures
        forall|i: int|
            0 <= i < groups.len() && #[trigger] groups[i] == g ==> (if colors[i].len() == 0 {
                !recolored(map, groups, colors).contains_key(g)
            } else {
                recolored(map, groups, colors).contains_key(g) && recolored(map, groups, colors)[g]
                    == colors[i]
            }),
        !groups.contains(g) ==> recolored(map, groups, colors).contains_key(g) == map.contains_key(
            g,
        ) && (map.contains_key(g) ==> recolored(map, groups, colors)[g] == map[g]),
    decreases groups.len(),
{
    if groups.len() > 0 {
        let rest = groups.drop_last();
        let cut = colors.take(groups.len() - 1);
        law_groups_get_their_colors(map, rest, cut, g);
        assert(groups.contains(groups.last()));
        if rest.contains(g) {
            let k = choose|k: int| 0 <= k < rest.len() && rest[k] == g;
            assert(groups[k] == g);
        }
        assert forall|i: int| 0 <= i < groups.len() && #[trigger] groups[i] == g implies (
        if colors[i].len() == 0 {
            !recolored(map, groups, colors).contains_key(g)
        } else {
            recolored(map, groups, colors).contains_key(g) && recolored(map, groups, colors)[g]
                == colors[i]
        }) by {
            if i < rest.len() {
                assert(rest[i] == g);
                assert(groups[i] != groups[groups.len() - 1]);
                assert(cut[i] == colors[i]);
            } else if rest.contains(g) {
                let k = choose|k: int| 0 <= k < rest.len() && rest[k] == g;
                assert(groups[k] != groups[groups.len() - 1]);
            }
        }
    }
}

proof fn lemma_remotes_held(list: Seq<RemoteModel>, group: Seq<char>)
    requires
        list.len() <= usize::MAX,
    ensures
        ({
            let m = remote_members(list, group);
            &&& forall|a: int|
                0 <= a < m.len() ==> (#[trigger] m[a]) < list.len() && list[m[a] as int].group
                    == group
            &&& forall|a: int, b: int| 0 <= a < b < m.len() ==> m[a] < m[b]
            &&& forall|i: usize|
                i < list.len() && list[i as int].group == group ==> #[trigger] m.contains(i)
        }),
    decreases list.len(),
{
    if list.len() > 0 {
        let rest = list.drop_last();
        lemma_remotes_held(rest, group);
        let before = remote_members(rest, group);
        let m = remote_members(list, group);
        let last = (list.len() - 1) as usize;
        assert forall|a: int| 0 <= a < m.len() implies (#[trigger] m[a]) < list.len()
            && list[m[a] as int].group == group by {
            if a < before.len() {
                assert(m[a] == before[a]);
                assert(rest[before[a] as int] == list[before[a] as int]);
            }
        }
        assert forall|a: int, b: int| 0 <= a < b < m.len() implies m[a] < m[b] by {
            assert(m[a] == before[a]);
            if b < before.len() {
                assert(m[b] == before[b]);
            }
        }
        assert forall|i: usize|
            i < list.len() && list[i as int].group == group implies #[trigger] m.contains(i) by {
            if i < rest.len() {
                assert(rest[i as int] == list[i as int]);
                assert(before.contains(i));
                let k = choose|k: int| 0 <= k < before.len() && before[k] == i;
                assert(m[k] == i);
            } else {
                assert(m[before.len() as int] == last);
            }
        }
    }
}

proof fn lemma_serials_held(list: Seq<SerialModel>, group: Seq<char>)
    requires
        list.len() <= usize::MAX,
    ensures
        ({
            let m = serial_members(list, group);
            &&& forall|a: int|
                0 <= a < m.len() ==> (#[trigger] m[a]) < list.len() && list[m[a] as int].group
                    == group
            &&& forall|a: int, b: int| 0 <= a < b < m.len() ==> m[a] < m[b]
            &&& forall|i: usize|
                i < list.len() && list[i as int].group == group ==> #[trigger] m.contains(i)
        }),
    decreases list.len(),
{
    if list.len() > 0 {
        let rest = list.drop_last();
        lemma_serials_held(rest, group);
        let before = serial_members(rest, group);
        let m = serial_members(list, group);
        let last = (list.len() - 1) as usize;
        assert forall|a: int| 0 <= a < m.len() implies (#[trigger] m[a]) < list.len()
            && list[m[a] as int].group == group by {
            if a < before.len() {
                assert(m[a] == before[a]);
                assert(rest[before[a] as int] == list[before[a] as int]);
            }
        }
        assert forall|a: int, b: int| 0 <= a < b < m.len() implies m[a] < m[b] by {
            assert(m[a] == before[a]);
            if b < before.len() {
                assert(m[b] == before[b]);
            }
        }
        assert forall|i: usize|
            i < list.len() && list[i as int].group == group implies #[trigger] m.contains(i) by {
            if i < rest.len() {
                assert(rest[i as int] == list[i as int]);
                assert(before.contains(i));
                let k = choose|k: int| 0 <= k < before.len() && before[k] == i;
                assert(m[k] == i);
            } else {
                assert(m[before.len() as int] == last);
            }
        }
    }
}

/// A listed group holds exactly its own connections, each under its index, in the order
/// in which they are saved.
pub proof fn law_rows_hold_their_own(s: SettingsModel, group: Seq<char>)
    requires
        s.profiles.len() <= usize::MAX,
        s.serial_profiles.len() <= usize::MAX,
    ensures
        ({
            let r = row_of(s, group);
            &&& r.name == group
            &&& forall|a: int|
                0 <= a < r.profiles.len() ==> (#[trigger] r.profiles[a]) < s.profiles.len()
                    && s.profiles[r.profiles[a] as int].group == group
            &&& forall|a: int, b: int|
                0 <= a < b < r.profiles.len() ==> r.profiles[a] < r.profiles[b]
            &&& forall|i: usize|
                i < s.profiles.len() && s.profiles[i as int].group == group
                    ==> #[trigger] r.profiles.contains(i)
            &&& forall|a: int|
                0 <= a < r.serials.len() ==> (#[trigger] r.serials[a]) < s.serial_profiles.len()
                    && s.serial_profiles[r.serials[a] as int].group == group
            &&& forall|a: int, b: int|
                0 <= a < b < r.serials.len() ==> r.serials[a] < r.serials[b]
            &&& forall|i: usize|
                i < s.serial_profiles.len() && s.serial_profiles[i as int].group == group
                    ==> #[trigger] r.serials.contains(i)
        }),
{
    lemma_remotes_held(s.profiles, group);
    lemma_serials_held(s.serial_profiles, group);
}

/// The groups are listed in this order: first the connections in none, then the groups
/// as they are kept, then those that only a connection names, each as it first occurs,
/// SSH before serial. The first is left out where nothing is in it and something is
/// elsewhere; no other is.
pub proof fn law_the_order_of_the_groups(
    s: SettingsModel,
    groups: Seq<Seq<char>>,
    used: Seq<Seq<char>>,
    g: Seq<char>,
)
    ensures
        listed_groups(s) == seq![Seq::<char>::empty()] + with_groups(
            s.groups,
            s.profiles.map_values(|p: RemoteModel| p.group) + s.serial_profiles.map_values(
                |p: SerialModel| p.group,
            ),
        ),
        with_groups(groups, Seq::empty()) == groups,
        with_groups(groups, used.push(g)) == (if g.len() == 0 || with_groups(
            groups,
            used,
        ).contains(g) {
            with_groups(groups, used)
        } else {
            with_groups(groups, used).push(g)
        }),
        rows(s, Seq::empty()) == Seq::<RowModel>::empty(),
        rows(s, groups.push(g)) == (if g.len() == 0 && row_of(s, g).profiles.len() == 0 && row_of(
            s,
            g,
        ).serials.len() == 0 && s.profiles.len() + s.serial_profiles.len() > 0 {
            rows(s, groups)
        } else {
            rows(s, groups).push(row_of(s, g))
        }),
{
    assert(used.push(g).drop_last() =~= used);
    assert(groups.push(g).drop_last() =~= groups);
}

/// The model of a row holds its name and its connections.
pub proof fn law_models_hold_the_row(r: GroupRow, list: Seq<GroupRow>, i: int)
    ensures
        r@.name == r.name@ && r@.profiles == r.profiles@ && r@.serials == r.serials@,
        row_models(list).len() == list.len(),
        0 <= i < list.len() ==> row_models(list)[i] == list[i]@,
{
}

} // verus!
