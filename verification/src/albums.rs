//! Input files grouped into albums, in the order in which albums and files
//! were first seen.

use vstd::prelude::*;
use crate::args::texts;

verus! {

/// An album name with the files found for it.
pub type Group = (Seq<char>, Seq<Seq<char>>);

/// The view of one group.
pub open spec fn group_view(g: (String, Vec<String>)) -> Group {
    (g.0@, texts(g.1@))
}

/// The album names of some groups.
pub open spec fn names(groups: Seq<Group>) -> Seq<Seq<char>> {
    groups.map_values(|g: Group| g.0)
}

/// The files of each album, grouped by album name; no name appears twice.
pub struct AlbumGroups {
    groups: Vec<(String, Vec<String>)>,
}

/// The groups after adding `path` under `key`: appended to the group of that
/// name, or as the only file of a new last group.
pub open spec fn spec_add(groups: Seq<Group>, key: Seq<char>, path: Seq<char>) -> Seq<Group> {
    if names(groups).contains(key) {
        let i = names(groups).index_of(key);
        groups.update(i, (key, groups[i].1.push(path)))
    } else {
        groups.push((key, seq![path]))
    }
}

fn find_group(groups: &Vec<(String, Vec<String>)>, key: &String) -> (found: Option<usize>)
    ensures
        match found {
            Some(i) => i < groups.len() && groups@[i as int].0@ == key@,
            None => forall|j: int| 0 <= j < groups.len() ==> groups@[j].0@ != key@,
        },
{
    let n = groups.len();
    let mut i: usize = 0;
    while i < n
        invariant
            n == groups.len(),
            i <= n,
            forall|j: int| 0 <= j < i ==> groups@[j].0@ != key@,
        decreases n - i,
    {
        if groups[i].0 == *key {
            return Some(i);
        }
        i = i + 1;
    }
    None
}

/// How the groups change when `path` is added under `key`: the album of that
/// name keeps every file it had and gets `path` after them; every other album
/// stays as it was; and where no album had that name, a new one holding just
/// `path` comes last.
pub open spec fn grows_by(before: Seq<Group>, after: Seq<Group>, key: Seq<char>, path: Seq<char>) -> bool {
    let known = exists|j: int| 0 <= j < before.len() && #[trigger] before[j].0 == key;
    &&& after.len() == if known { before.len() } else { before.len() + 1 }
    &&& forall|j: int|
        0 <= j < before.len() ==> (#[trigger] after[j]).0 == before[j].0 && after[j].1 == if before[j].0
            == key {
            before[j].1.push(path)
        } else {
            before[j].1
        }
    &&& !known ==> after[before.len() as int] == (key, seq![path])
}

impl AlbumGroups {
    #[verifier::type_invariant]
    spec fn names_distinct(self) -> bool {
        names(self.view()).no_duplicates()
    }

    /// The groups, in the order in which their names were first added.
    pub closed spec fn view(&self) -> Seq<Group> {
        self.groups@.map_values(|g: (String, Vec<String>)| group_view(g))
    }

    /// No group.
    pub fn new() -> (groups: AlbumGroups)
        ensures
            groups.view() == Seq::<Group>::empty(),
    {
        let groups = AlbumGroups { groups: Vec::new() };
        assert(groups.view() =~= Seq::<Group>::empty());
        assert(names(groups.view()) =~= Seq::<Seq<char>>::empty());
        groups
    }

    /// Adds `path` to the album named `key`.
    pub fn add(&mut self, key: String, path: String)
        ensures
            final(self).view() == spec_add(old(self).view(), key@, path@),
            names(final(self).view()).no_duplicates(),
            grows_by(old(self).view(), final(self).view(), key@, path@),
    {
        proof {
            use_type_invariant(&*self);
        }
        let ghost before = self.view();
        let mut groups: Vec<(String, Vec<String>)> = Vec::new();
        std::mem::swap(&mut groups, &mut self.groups);
        assert(names(self.view()) =~= Seq::<Seq<char>>::empty());
        assert(before == groups@.map_values(|g: (String, Vec<String>)| group_view(g)));
        match find_group(&groups, &key) {
            Some(i) => {
                assert(names(before)[i as int] == key@);
                assert(names(before).contains(key@));
                let ghost j = names(before).index_of(key@);
                assert(j == i);
                let (name, mut members) = groups.remove(i);
                let ghost old_members = members@;
                members.push(path);
                assert(texts(members@) =~= texts(old_members).push(path@));
                groups.insert(i, (name, members));
                let ghost after = groups@.map_values(|g: (String, Vec<String>)| group_view(g));
                assert(after =~= spec_add(before, key@, path@));
                assert(names(after) =~= names(before));
                proof {
                    law_add_appends_to_its_album(before, key@, path@);
                }
                self.groups = groups;
            },
            None => {
                assert(!names(before).contains(key@)) by {
                    if names(before).contains(key@) {
                        let j = choose|j: int| 0 <= j < names(before).len() && names(before)[j] == key@;
                        assert(groups@[j].0@ == key@);
                    }
                }
                let mut members: Vec<String> = Vec::new();
                members.push(path);
                assert(texts(members@) =~= seq![path@]);
                groups.push((key, members));
                let ghost after = groups@.map_values(|g: (String, Vec<String>)| group_view(g));
                assert(after =~= spec_add(before, key@, path@));
                assert(names(after) =~= names(before).push(key@));
                proof {
                    law_add_appends_to_its_album(before, key@, path@);
                }
                self.groups = groups;
            },
        }
    }

    /// The files of each album, album by album in the order of the groups.
    pub fn into_albums(self) -> (albums: Vec<Vec<String>>)
        ensures
            albums.len() == self.view().len(),
            forall|i: int| 0 <= i < albums.len() ==> texts(#[trigger] albums@[i]@) == self.view()[i].1,
    {
        let ghost groups_view = self.view();
        let mut albums: Vec<Vec<String>> = Vec::new();
        let mut rest = self.groups;
        let ghost all = rest@;
        let n = rest.len();
        let mut i: usize = 0;
        while i < n
            invariant
                n == all.len(),
                i <= n,
                groups_view == all.map_values(|g: (String, Vec<String>)| group_view(g)),
                rest@ == all.subrange(i as int, n as int),
                albums.len() == i,
                forall|j: int| 0 <= j < i ==> texts(#[trigger] albums@[j]@) == groups_view[j].1,
            decreases n - i,
        {
            let (_, members) = rest.remove(0);
            assert(members == all[i as int].1);
            albums.push(members);
            assert(rest@ =~= all.subrange(i + 1, n as int));
            i = i + 1;
        }
        albums
    }
}

/// Adding a file keeps the album names distinct, puts the file last in the
/// group of its album, and leaves every other group as it was.
pub proof fn law_add_files_under_its_album(groups: Seq<Group>, key: Seq<char>, path: Seq<char>)
    requires
        names(groups).no_duplicates(),
    ensures
        ({
            let after = spec_add(groups, key, path);
            let i = names(after).index_of(key);
            &&& names(after).no_duplicates()
            &&& 0 <= i < after.len()
            &&& after[i].0 == key
            &&& after[i].1.last() == path
            &&& forall|j: int| 0 <= j < groups.len() && groups[j].0 != key ==> after[j] == groups[j]
        }),
{
    let after = spec_add(groups, key, path);
    if names(groups).contains(key) {
        let i = names(groups).index_of(key);
        assert(names(after) =~= names(groups));
        assert(after[i].0 == key);
    } else {
        assert(names(after) =~= names(groups).push(key));
        assert(names(after)[groups.len() as int] == key);
        assert(names(after).no_duplicates()) by {
            assert forall|a: int, b: int|
                0 <= a < names(after).len() && 0 <= b < names(after).len() && a != b implies names(
                after,
            )[a] != names(after)[b] by {
                if a < groups.len() && b < groups.len() {
                    assert(names(after)[a] == names(groups)[a]);
                    assert(names(after)[b] == names(groups)[b]);
                } else if a < groups.len() {
                    assert(names(after)[a] == names(groups)[a]);
                } else if b < groups.len() {
                    assert(names(after)[b] == names(groups)[b]);
                }
            }
        }
        let i = names(after).index_of(key);
        assert(names(after).contains(key));
        assert(i == groups.len()) by {
            if i < groups.len() {
                assert(names(groups)[i] == key);
            }
        }
    }
}

/// Adding a file to albums with distinct names appends it to the album of its
/// name, which keeps all its earlier files (so it grows by one), leaves the
/// other albums alone, and opens a new album at the end where its name is new.
pub proof fn law_add_appends_to_its_album(groups: Seq<Group>, key: Seq<char>, path: Seq<char>)
    requires
        names(groups).no_duplicates(),
    ensures
        grows_by(groups, spec_add(groups, key, path), key, path),
{
    let after = spec_add(groups, key, path);
    if names(groups).contains(key) {
        let i = names(groups).index_of(key);
        assert(groups[i].0 == key);
        assert forall|j: int| 0 <= j < groups.len() implies (#[trigger] after[j]).0 == groups[j].0
            && after[j].1 == if groups[j].0 == key {
            groups[j].1.push(path)
        } else {
            groups[j].1
        } by {
            if j != i && groups[j].0 == key {
                assert(names(groups)[j] == names(groups)[i]);
            }
        }
    } else {
        assert forall|j: int| 0 <= j < groups.len() implies groups[j].0 != key by {
            assert(names(groups)[j] == groups[j].0);
        }
    }
}

} // verus!
