//! What the user does with the saved connections: saving, copying, removing and
//! grouping them.

use crate::config::profile::{
    profile_error, remote_label, remote_models, serial_error, serial_label,
    serial_models, text_copy, ProfileError, RemoteModel, RemoteProfile, SerialError, SerialModel,
    SerialProfile,
};
use crate::config::settings::{Settings, SettingsModel};
use crate::text::{contents, decimal, lemma_decimal_value, push_decimal, same_str};
use vstd::prelude::*;

verus! {

/// The name of a copy: the first is not numbered.
pub open spec fn copy_name(base: Seq<char>, k: int) -> Seq<char> {
    if k <= 1 {
        base + " 副本"@
    } else {
        base + " 副本 "@ + decimal(k as nat)
    }
}

/// Whether `k` is the first number for which the name of a copy is free.
pub open spec fn first_free_copy(base: Seq<char>, taken: Seq<Seq<char>>, k: int) -> bool {
    &&& k >= 1
    &&& !taken.contains(copy_name(base, k))
    &&& forall|j: int| 1 <= j < k ==> taken.contains(#[trigger] copy_name(base, j))
}

/// The first number for which the name of a copy is free.
pub open spec fn copy_number(base: Seq<char>, taken: Seq<Seq<char>>) -> int {
    choose|k: int| #[trigger] first_free_copy(base, taken, k)
}

/// There is only one first number.
proof fn lemma_copy_number(base: Seq<char>, taken: Seq<Seq<char>>, k: int)
    requires
        first_free_copy(base, taken, k),
    ensures
        copy_number(base, taken) == k,
{
    let n = copy_number(base, taken);
    assert(first_free_copy(base, taken, n));
    if n < k {
        assert(taken.contains(copy_name(base, n)));
    } else if k < n {
        assert(taken.contains(copy_name(base, k)));
    }
}

proof fn lemma_copy_names_differ(base: Seq<char>, a: int, b: int)
    requires
        1 <= a < b,
    ensures
        copy_name(base, a) != copy_name(base, b),
{
    reveal_strlit(" 副本");
    reveal_strlit(" 副本 ");
    lemma_decimal_value(b as nat);
    lemma_decimal_value(a as nat);
    let y = copy_name(base, b);
    let stem = base + " 副本 "@;
    assert(y.skip(stem.len() as int) =~= decimal(b as nat));
    if a == 1 {
        assert(copy_name(base, a).len() < y.len());
    } else {
        assert(copy_name(base, a).skip(stem.len() as int) =~= decimal(a as nat));
    }
}

/// The names of the copies numbered below `k`.
spec fn copy_names(base: Seq<char>, k: int) -> Set<Seq<char>>
    decreases k,
{
    if k <= 1 {
        Set::empty()
    } else {
        copy_names(base, k - 1).insert(copy_name(base, k - 1))
    }
}

proof fn lemma_copy_names(base: Seq<char>, taken: Seq<Seq<char>>, k: int)
    requires
        k >= 1,
        forall|j: int| 1 <= j < k ==> taken.contains(#[trigger] copy_name(base, j)),
    ensures
        copy_names(base, k).finite(),
        copy_names(base, k).len() == k - 1,
        copy_names(base, k).subset_of(taken.to_set()),
        forall|j: int| j >= k ==> !copy_names(base, k).contains(#[trigger] copy_name(base, j)),
    decreases k,
{
    if k > 1 {
        lemma_copy_names(base, taken, k - 1);
        assert forall|j: int| j >= k implies !copy_names(base, k).contains(
            #[trigger] copy_name(base, j),
        ) by {
            lemma_copy_names_differ(base, k - 1, j);
        }
        assert(taken.contains(copy_name(base, k - 1)));
    }
}

/// Among a list of names and one more, one is not in the list.
proof fn lemma_free_copy_in_reach(base: Seq<char>, taken: Seq<Seq<char>>, k: int)
    requires
        k >= 1,
        forall|j: int| 1 <= j < k ==> taken.contains(#[trigger] copy_name(base, j)),
    ensures
        k - 1 <= taken.len(),
{
    lemma_copy_names(base, taken, k);
    taken.lemma_cardinality_of_set();
    vstd::set_lib::lemma_len_subset(copy_names(base, k), taken.to_set());
}

/// Whether the list holds the text.
pub fn holds_text(list: &Vec<String>, text: &str) -> (yes: bool)
    ensures
        yes == contents(list@).contains(text@),
{
    let n: usize = list.len();
    let mut i: usize = 0;
    while i < n
        invariant
            i <= n,
            n == list@.len(),
            forall|j: int| 0 <= j < i ==> (#[trigger] list@[j])@ != text@,
        decreases n - i,
    {
        if same_str(list[i].as_str(), text) {
            assert(contents(list@)[i as int] == text@);
            return true;
        }
        i += 1;
    }
    assert forall|j: int| 0 <= j < contents(list@).len() implies #[trigger] contents(list@)[j]
        != text@ by {
        assert(list@[j]@ != text@);
    }
    false
}

/// A name for a copied connection: `<base> 副本`, numbered when that name is
/// already in use.
pub fn unique_copy_name(base: &str, taken: &Vec<String>) -> (out: String)
    requires
        taken@.len() < usize::MAX,
    ensures
        out@ == copy_name(base@, copy_number(base@, contents(taken@))),
        !contents(taken@).contains(out@),
{
    let ghost names = contents(taken@);
    let mut first = text_copy(base);
    first.append(" 副本");
    assert(first@ =~= copy_name(base@, 1));
    if !holds_text(taken, first.as_str()) {
        proof {
            lemma_copy_number(base@, names, 1);
        }
        return first;
    }
    let mut k: u64 = 2;
    loop
        invariant
            names == contents(taken@),
            taken@.len() < usize::MAX,
            2 <= k <= taken@.len() + 1,
            forall|j: int| 1 <= j < k ==> names.contains(#[trigger] copy_name(base@, j)),
        decreases taken@.len() + 2 - k,
    {
        let mut candidate = text_copy(base);
        candidate.append(" 副本 ");
        push_decimal(&mut candidate, k);
        assert(candidate@ =~= copy_name(base@, k as int));
        if !holds_text(taken, candidate.as_str()) {
            proof {
                lemma_copy_number(base@, names, k as int);
            }
            return candidate;
        }
        proof {
            lemma_free_copy_in_reach(base@, names, k + 1);
        }
        k += 1;
    }
}

/// Whatever names are taken, the name of a copy is not among them.
pub proof fn law_a_copy_has_a_name_of_its_own(base: Seq<char>, taken: Seq<Seq<char>>)
    ensures
        first_free_copy(base, taken, copy_number(base, taken)),
        !taken.contains(copy_name(base, copy_number(base, taken))),
{
    lemma_some_copy_is_free(base, taken, 1);
}

proof fn lemma_some_copy_is_free(base: Seq<char>, taken: Seq<Seq<char>>, k: int)
    requires
        k >= 1,
        forall|j: int| 1 <= j < k ==> taken.contains(#[trigger] copy_name(base, j)),
    ensures
        exists|j: int| #[trigger] first_free_copy(base, taken, j),
    decreases taken.len() + 2 - k,
{
    lemma_free_copy_in_reach(base, taken, k);
    if taken.contains(copy_name(base, k)) {
        lemma_some_copy_is_free(base, taken, k + 1);
    } else {
        assert(first_free_copy(base, taken, k));
    }
}

/// The names of the connections.
pub open spec fn remote_names(list: Seq<RemoteModel>) -> Seq<Seq<char>> {
    list.map_values(|p: RemoteModel| p.name)
}

/// The names of the serial connections.
pub open spec fn serial_names(list: Seq<SerialModel>) -> Seq<Seq<char>> {
    list.map_values(|p: SerialModel| p.name)
}

/// A copy of a connection, under the first free name.
pub open spec fn remote_copy(list: Seq<RemoteModel>, i: int) -> RemoteModel {
    let base = remote_label(list[i]);
    RemoteModel { name: copy_name(base, copy_number(base, remote_names(list))), ..list[i] }
}

/// A copy of a serial connection, under the first free name.
pub open spec fn serial_copy(list: Seq<SerialModel>, i: int) -> SerialModel {
    let base = serial_label(list[i]);
    SerialModel { name: copy_name(base, copy_number(base, serial_names(list))), ..list[i] }
}

/// The list with a connection added, or put in the place of the one that is
/// edited.
pub open spec fn stored<T>(list: Seq<T>, item: T, editing: Option<usize>) -> Seq<T> {
    match editing {
        Some(i) => list.update(i as int, item),
        None => list.push(item),
    }
}

impl Settings {
    /// Removes a saved SSH connection.
    pub fn remove_profile(&mut self, i: usize)
        requires
            i < old(self).profiles@.len(),
        ensures
            final(self)@ == (SettingsModel {
                profiles: old(self)@.profiles.remove(i as int),
                ..old(self)@
            }),
    {
        let ghost before = self@;
        let ghost list = self.profiles@;
        self.profiles.remove(i);
        assert(remote_models(self.profiles@) =~= remote_models(list).remove(i as int));
        assert(self@ =~= SettingsModel { profiles: before.profiles.remove(i as int), ..before });
    }

    /// Removes a saved serial connection.
    pub fn remove_serial(&mut self, i: usize)
        requires
            i < old(self).serial_profiles@.len(),
        ensures
            final(self)@ == (SettingsModel {
                serial_profiles: old(self)@.serial_profiles.remove(i as int),
                ..old(self)@
            }),
    {
        let ghost before = self@;
        let ghost list = self.serial_profiles@;
        self.serial_profiles.remove(i);
        assert(serial_models(self.serial_profiles@) =~= serial_models(list).remove(i as int));
        assert(self@ =~= SettingsModel {
            serial_profiles: before.serial_profiles.remove(i as int),
            ..before
        });
    }

    /// Copies a saved SSH connection under a name of its own. Says whether
    /// there was one to copy.
    pub fn duplicate_profile(&mut self, i: usize) -> (done: bool)
        requires
            old(self).profiles@.len() < usize::MAX,
        ensures
            done == (i < old(self)@.profiles.len()),
            final(self)@ == (if done {
                SettingsModel {
                    profiles: old(self)@.profiles.push(remote_copy(old(self)@.profiles, i as int)),
                    ..old(self)@
                }
            } else {
                old(self)@
            }),
    {
        let ghost before = self@;
        let n: usize = self.profiles.len();
        if i >= n {
            return false;
        }
        let mut taken: Vec<String> = Vec::new();
        for k in 0..n
            invariant
                n == self.profiles@.len(),
                self@ == before,
                taken@.len() == k,
                forall|j: int| 0 <= j < k ==> (#[trigger] taken@[j])@ == self.profiles@[j].name@,
        {
            taken.push(self.profiles[k].name.clone());
        }
        assert(contents(taken@) =~= remote_names(before.profiles));
        let base: String = self.profiles[i].label();
        let mut copy: RemoteProfile = self.profiles[i].duplicate();
        let name: String = unique_copy_name(base.as_str(), &taken);
        copy.name = name;
        assert(copy@ =~= remote_copy(before.profiles, i as int));
        let ghost list = self.profiles@;
        self.profiles.push(copy);
        assert(remote_models(self.profiles@) =~= remote_models(list).push(copy@));
        assert(self@ =~= SettingsModel { profiles: before.profiles.push(copy@), ..before });
        true
    }

    /// Copies a saved serial connection under a name of its own. Says whether
    /// there was one to copy.
    pub fn duplicate_serial(&mut self, i: usize) -> (done: bool)
        requires
            old(self).serial_profiles@.len() < usize::MAX,
        ensures
            done == (i < old(self)@.serial_profiles.len()),
            final(self)@ == (if done {
                SettingsModel {
                    serial_profiles: old(self)@.serial_profiles.push(
                        serial_copy(old(self)@.serial_profiles, i as int),
                    ),
                    ..old(self)@
                }
            } else {
                old(self)@
            }),
    {
        let ghost before = self@;
        let n: usize = self.serial_profiles.len();
        if i >= n {
            return false;
        }
        let mut taken: Vec<String> = Vec::new();
        for k in 0..n
            invariant
                n == self.serial_profiles@.len(),
                self@ == before,
                taken@.len() == k,
                forall|j: int|
                    0 <= j < k ==> (#[trigger] taken@[j])@ == self.serial_profiles@[j].name@,
        {
            taken.push(self.serial_profiles[k].name.clone());
        }
        assert(contents(taken@) =~= serial_names(before.serial_profiles));
        let base: String = self.serial_profiles[i].label();
        let mut copy: SerialProfile = self.serial_profiles[i].duplicate();
        let name: String = unique_copy_name(base.as_str(), &taken);
        copy.name = name;
        assert(copy@ =~= serial_copy(before.serial_profiles, i as int));
        let ghost list = self.serial_profiles@;
        self.serial_profiles.push(copy);
        assert(serial_models(self.serial_profiles@) =~= serial_models(list).push(copy@));
        assert(self@ =~= SettingsModel {
            serial_profiles: before.serial_profiles.push(copy@),
            ..before
        });
        true
    }

    /// Keeps a connection, as a new one or in the place of the one that is
    /// edited, unless something is wrong with it.
    pub fn store_profile(&mut self, p: &RemoteProfile, editing: Option<usize>) -> (out: Result<
        (),
        ProfileError,
    >)
        requires
            profile_error(p@) is None ==> (editing matches Some(i) ==> i < old(
                self,
            ).profiles@.len()),
        ensures
            match out {
                Ok(()) => profile_error(p@) is None && final(self)@ == (SettingsModel {
                    profiles: stored(old(self)@.profiles, p@, editing),
                    ..old(self)@
                }),
                Err(e) => profile_error(p@) == Some(e) && final(self)@ == old(self)@,
            },
    {
        let ghost before = self@;
        let ghost list = self.profiles@;
        if let Err(e) = p.validate() {
            return Err(e);
        }
        match editing {
            Some(i) => {
                self.profiles.set(i, p.duplicate());
            },
            None => {
                self.profiles.push(p.duplicate());
            },
        }
        assert(remote_models(self.profiles@) =~= stored(remote_models(list), p@, editing));
        assert(self@ =~= SettingsModel {
            profiles: stored(before.profiles, p@, editing),
            ..before
        });
        Ok(())
    }

    /// Keeps a serial connection, as a new one or in the place of the one that
    /// is edited, unless something is wrong with it.
    pub fn store_serial(&mut self, p: &SerialProfile, editing: Option<usize>) -> (out: Result<
        (),
        SerialError,
    >)
        requires
            serial_error(p@) is None ==> (editing matches Some(i) ==> i < old(
                self,
            ).serial_profiles@.len()),
        ensures
            match out {
                Ok(()) => serial_error(p@) is None && final(self)@ == (SettingsModel {
                    serial_profiles: stored(old(self)@.serial_profiles, p@, editing),
                    ..old(self)@
                }),
                Err(e) => serial_error(p@) == Some(e) && final(self)@ == old(self)@,
            },
    {
        let ghost before = self@;
        let ghost list = self.serial_profiles@;
        if let Err(e) = p.validate() {
            return Err(e);
        }
        match editing {
            Some(i) => {
                self.serial_profiles.set(i, p.duplicate());
            },
            None => {
                self.serial_profiles.push(p.duplicate());
            },
        }
        assert(serial_models(self.serial_profiles@) =~= stored(serial_models(list), p@, editing));
        assert(self@ =~= SettingsModel {
            serial_profiles: stored(before.serial_profiles, p@, editing),
            ..before
        });
        Ok(())
    }
}

/// What a copy is called: by the name of what it copies and the word for a copy, with a
/// number from two on where that is taken. The first free name is taken.
pub proof fn law_copies_are_numbered_from_two(base: Seq<char>, taken: Seq<Seq<char>>, j: int)
    ensures
        ({
            let word = seq![' ', '副', '本'];
            let k = copy_number(base, taken);
            let name = copy_name(base, k);
            &&& k >= 1
            &&& k == 1 ==> name == base + word
            &&& k >= 2 ==> name == base + word + seq![' '] + decimal(k as nat)
            &&& !taken.contains(name)
            &&& k >= 2 ==> taken.contains(base + word)
            &&& 2 <= j < k ==> taken.contains(base + word + seq![' '] + decimal(j as nat))
        }),
{
    law_a_copy_has_a_name_of_its_own(base, taken);
    reveal_strlit(" 副本");
    reveal_strlit(" 副本 ");
    let word = seq![' ', '副', '本'];
    let k = copy_number(base, taken);
    assert(" 副本"@ =~= word);
    assert(" 副本 "@ =~= word + seq![' ']);
    assert(base + (word + seq![' ']) =~= base + word + seq![' ']);
    if k >= 2 {
        assert(taken.contains(copy_name(base, 1)));
    }
    if 2 <= j < k {
        assert(taken.contains(copy_name(base, j)));
    }
}

/// A copy is the connection itself under another name: the name is made from what the
/// connection is called, and is not that of any other.
pub proof fn law_a_copy_differs_in_its_name(
    list: Seq<RemoteModel>,
    serials: Seq<SerialModel>,
    i: int,
    k: int,
)
    ensures
        0 <= i < list.len() ==> {
            let c = remote_copy(list, i);
            let base = if crate::text::blank(list[i].name) {
                list[i].host
            } else {
                list[i].name
            };
            &&& c == (RemoteModel { name: c.name, ..list[i] })
            &&& base.is_prefix_of(c.name)
            &&& 0 <= k < list.len() ==> c.name != list[k].name
        },
        0 <= i < serials.len() ==> {
            let c = serial_copy(serials, i);
            let base = if crate::text::blank(serials[i].name) {
                crate::text::trimmed(serials[i].port)
            } else {
                serials[i].name
            };
            &&& c == (SerialModel { name: c.name, ..serials[i] })
            &&& base.is_prefix_of(c.name)
            &&& 0 <= k < serials.len() ==> c.name != serials[k].name
        },
{
    if 0 <= i < list.len() {
        let base = remote_label(list[i]);
        let names = remote_names(list);
        law_copies_are_numbered_from_two(base, names, 0);
        assert(remote_copy(list, i).name.take(base.len() as int) =~= base);
        if 0 <= k < list.len() {
            assert(names[k] == list[k].name);
            assert(names.contains(list[k].name));
        }
    }
    if 0 <= i < serials.len() {
        let base = serial_label(serials[i]);
        let names = serial_names(serials);
        law_copies_are_numbered_from_two(base, names, 0);
        assert(serial_copy(serials, i).name.take(base.len() as int) =~= base);
        if 0 <= k < serials.len() {
            assert(names[k] == serials[k].name);
            assert(names.contains(serials[k].name));
        }
    }
}

/// What is kept stands behind the others where it is new, and in the place of what was
/// edited where it is not; every other stays in its place.
pub proof fn law_what_is_kept_has_its_place<T>(list: Seq<T>, item: T, i: usize, k: int)
    ensures
        stored(list, item, None).len() == list.len() + 1,
        stored(list, item, None)[list.len() as int] == item,
        0 <= k < list.len() ==> stored(list, item, None)[k] == list[k],
        i < list.len() ==> stored(list, item, Some(i)).len() == list.len() && stored(
            list,
            item,
            Some(i),
        )[i as int] == item,
        i < list.len() && 0 <= k < list.len() && k != i ==> stored(list, item, Some(i))[k]
            == list[k],
{
}

} // verus!
