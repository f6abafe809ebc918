//! Which files to convert: walking through folders, and choosing among files of
//! the same name.

use vstd::prelude::*;
use crate::order::is_sorted_form;
use crate::order::key_of_path;
use crate::order::lex_less;
use crate::order::path_key;
use crate::order::sort_paths;
use crate::outside::lossy;
use crate::outside::lossy_text;
use crate::outside::lowercase;
use crate::outside::lowercase_text;
use crate::path::extension_of;
use crate::path::is_anchor;
use crate::path::parent_of;
use crate::path::paths_view;
use crate::path::spelled_view;
use crate::path::stem_of;
use crate::path::FilePath;
use crate::path::Part;
use crate::path::PathView;
use crate::text::ascii_lower;
use crate::text::chars_of;
use crate::text::text_eq;
use crate::text::to_ascii_lowercase;
use crate::types::FileInfo;
use crate::types::InfoView;

verus! {

// Common ancestors -----------------------------------------------------------

/// The directories that hold the paths; a path that has none is left out.
pub open spec fn parents(paths: Seq<Seq<Part>>) -> Seq<Seq<Part>>
    decreases paths.len(),
{
    if paths.len() == 0 {
        seq![]
    } else {
        match parent_of(paths.last()) {
            Some(dir) => parents(paths.drop_last()).push(dir),
            None => parents(paths.drop_last()),
        }
    }
}

/// How much of a path climbing never leaves: all up to its last root or prefix.
pub open spec fn anchor_len(path: Seq<Part>) -> nat
    decreases path.len(),
{
    if path.len() == 0 || is_anchor(path.last()) {
        path.len()
    } else {
        anchor_len(path.drop_last())
    }
}

/// All the directories lie in `base` or are it.
pub open spec fn holds_all(base: Seq<Part>, dirs: Seq<Seq<Part>>) -> bool {
    forall|i: int| 0 <= i < dirs.len() ==> base.is_prefix_of(#[trigger] dirs[i])
}

/// `base` is the deepest directory that holds all of `dirs`.
pub open spec fn is_deepest(base: Seq<Part>, dirs: Seq<Seq<Part>>) -> bool {
    &&& holds_all(base, dirs)
    &&& forall|other: Seq<Part>| holds_all(other, dirs) ==> #[trigger] other.len() <= base.len()
}

proof fn lemma_anchor_len(path: Seq<Part>, n: int)
    requires
        anchor_len(path) <= n <= path.len(),
    ensures
        anchor_len(path) <= path.len(),
        anchor_len(path.take(n)) == anchor_len(path),
        n > anchor_len(path) ==> !is_anchor(path[n - 1]),
        n == anchor_len(path) && n > 0 ==> is_anchor(path[n - 1]),
    decreases path.len(),
{
    if path.len() == n {
        assert(path.take(n) =~= path);
        lemma_anchor_bound(path);
        lemma_anchor_end(path);
    } else {
        lemma_anchor_bound(path);
        assert(path.drop_last().take(n) =~= path.take(n));
        lemma_anchor_len(path.drop_last(), n);
    }
}

proof fn lemma_anchor_bound(path: Seq<Part>)
    ensures
        anchor_len(path) <= path.len(),
    decreases path.len(),
{
    if path.len() > 0 && !is_anchor(path.last()) {
        lemma_anchor_bound(path.drop_last());
    }
}

proof fn lemma_anchor_end(path: Seq<Part>)
    ensures
        anchor_len(path) > 0 ==> is_anchor(path[anchor_len(path) - 1]),
    decreases path.len(),
{
    lemma_anchor_bound(path);
    if path.len() > 0 && !is_anchor(path.last()) {
        lemma_anchor_end(path.drop_last());
        lemma_anchor_bound(path.drop_last());
    }
}

/// Two prefixes of the same path of the same length are the same.
proof fn lemma_same_prefix(a: Seq<Part>, b: Seq<Part>, whole: Seq<Part>)
    requires
        a.is_prefix_of(whole),
        b.is_prefix_of(whole),
        a.len() <= b.len(),
    ensures
        a.is_prefix_of(b),
        a.len() == b.len() ==> a == b,
{
    assert(a =~= b.subrange(0, a.len() as int));
}

/// The deepest directory that holds the directories of all the paths: none
/// where there are no directories, or where not even the root of the first
/// holds the others.
pub fn common_ancestor(paths: &Vec<FilePath>) -> (r: Option<FilePath>)
    ensures
        ({
            let dirs = parents(paths_view(paths@));
            match r {
                Some(base) => dirs.len() > 0 && is_deepest(base@, dirs) && base@.len()
                    >= anchor_len(dirs[0]) && base.is_plain(),
                None => dirs.len() == 0 || !holds_all(
                    dirs[0].take(anchor_len(dirs[0]) as int),
                    dirs,
                ),
            }
        }),
{
    let ghost all = paths_view(paths@);
    let mut dirs: Vec<FilePath> = Vec::new();
    let mut i: usize = 0;
    assert(all.take(0) =~= seq![]);
    assert(paths_view(dirs@) =~= seq![]);
    while i < paths.len()
        invariant
            i <= paths@.len(),
            all == paths_view(paths@),
            paths_view(dirs@) == parents(all.take(i as int)),
            forall|k: int| 0 <= k < dirs@.len() ==> (#[trigger] dirs@[k]).is_plain(),
        decreases paths@.len() - i,
    {
        assert(all.take(i + 1).drop_last() =~= all.take(i as int));
        assert(all.take(i + 1).last() == paths@[i as int]@);
        let ghost before = paths_view(dirs@);
        match paths[i].parent() {
            Some(dir) => {
                dirs.push(dir);
                assert(paths_view(dirs@) =~= before.push(dir@));
            },
            None => {},
        }
        i = i + 1;
    }
    assert(all.take(i as int) =~= all);
    let ghost found = parents(all);
    assert(found.len() == dirs@.len());
    if dirs.len() == 0 {
        return None;
    }
    let mut base: FilePath = dirs[0].clone();
    let ghost first = found[0];
    assert(base@ == first);
    proof {
        lemma_anchor_bound(first);
        assert(first =~= first.subrange(0, first.len() as int));
    }
    let mut j: usize = 1;
    while j < dirs.len()
        invariant
            1 <= j <= dirs@.len(),
            found == paths_view(dirs@),
            found == parents(paths_view(paths@)),
            first == found[0],
            base.is_plain(),
            base@.is_prefix_of(first),
            base@.len() >= anchor_len(first),
            forall|k: int| 0 <= k < j ==> base@.is_prefix_of(#[trigger] found[k]),
            forall|other: Seq<Part>|
                holds_all(other, found) ==> #[trigger] other.len() <= base@.len(),
        decreases dirs@.len() - j,
    {
        let dir: &FilePath = &dirs[j];
        assert(dir@ == found[j as int]);
        while !dir.starts_with(&base)
            invariant
                1 <= j < dirs@.len(),
                found == paths_view(dirs@),
                found == parents(paths_view(paths@)),
                first == found[0],
                dir@ == found[j as int],
                base.is_plain(),
                base@.is_prefix_of(first),
                base@.len() >= anchor_len(first),
                forall|k: int| 0 <= k < j ==> base@.is_prefix_of(#[trigger] found[k]),
                forall|other: Seq<Part>|
                    holds_all(other, found) ==> #[trigger] other.len() <= base@.len(),
            decreases base@.len(),
        {
            let ghost old_base = base@;
            proof {
                lemma_anchor_len(first, old_base.len() as int);
                assert(old_base =~= first.take(old_base.len() as int));
                assert forall|other: Seq<Part>| holds_all(other, found) implies #[trigger] other.len()
                    < old_base.len() by {
                    if other.len() == old_base.len() {
                        assert(other.is_prefix_of(found[0]));
                        lemma_same_prefix(other, old_base, first);
                        assert(other.is_prefix_of(found[j as int]));
                    }
                }
            }
            base = match base.parent() {
                Some(up) => up,
                None => {
                    proof {
                        let root = first.take(anchor_len(first) as int);
                        if old_base.len() > anchor_len(first) {
                            assert(!is_anchor(old_base.last()));
                        }
                        assert(root =~= old_base);
                        assert(!root.is_prefix_of(found[j as int]));
                    }
                    return None;
                },
            };
            proof {
                if old_base.len() == anchor_len(first) && old_base.len() > 0 {
                    assert(is_anchor(old_base.last()));
                }
                assert(base@ =~= old_base.drop_last());
                assert(base@.is_prefix_of(first)) by {
                    assert(base@ =~= first.subrange(0, base@.len() as int));
                }
                assert forall|k: int| 0 <= k < j implies base@.is_prefix_of(
                    #[trigger] found[k],
                ) by {
                    assert(old_base.is_prefix_of(found[k]));
                    assert(base@ =~= found[k].subrange(0, base@.len() as int));
                }
            }
        }
        j = j + 1;
    }
    Some(base)
}

/// Every path lies below the common ancestor of the paths, where there is one.
pub proof fn the_common_ancestor_holds_every_path(paths: Seq<Seq<Part>>, base: Seq<Part>, i: int)
    requires
        is_deepest(base, parents(paths)),
        0 <= i < paths.len(),
        parent_of(paths[i]) is Some,
    ensures
        base.is_prefix_of(paths[i]),
    decreases paths.len(),
{
    let dirs = parents(paths);
    lemma_parent_among(paths, i);
    let k = choose|k: int| 0 <= k < dirs.len() && #[trigger] dirs[k] == parent_of(paths[i])->0;
    assert(base.is_prefix_of(dirs[k]));
    assert(base =~= paths[i].subrange(0, base.len() as int));
}

proof fn lemma_parent_among(paths: Seq<Seq<Part>>, i: int)
    requires
        0 <= i < paths.len(),
        parent_of(paths[i]) is Some,
    ensures
        exists|k: int|
            0 <= k < parents(paths).len() && #[trigger] parents(paths)[k] == parent_of(
                paths[i],
            )->0,
    decreases paths.len(),
{
    let dirs = parents(paths);
    if i == paths.len() - 1 {
        assert(dirs[dirs.len() - 1] == parent_of(paths[i])->0);
    } else {
        let rest = paths.drop_last();
        lemma_parent_among(rest, i);
        let k = choose|k: int|
            0 <= k < parents(rest).len() && #[trigger] parents(rest)[k] == parent_of(rest[i])->0;
        assert(dirs[k] == parents(rest)[k]);
    }
}

// Groups ---------------------------------------------------------------------

/// What files of the same name have in common: the directory, and the name
/// without extension in lower case.
pub open spec fn stem_id(path: Seq<Part>) -> (Seq<Part>, Seq<char>) {
    (
        match parent_of(path) {
            Some(dir) => dir,
            None => seq![],
        },
        lowercase_text(
            lossy_text(
                match stem_of(path) {
                    Some(stem) => stem,
                    None => seq![],
                },
            ),
        ),
    )
}

/// What files of the same name have in common.
pub fn stem_key(path: &FilePath) -> (r: (FilePath, String))
    ensures
        (r.0@, r.1@) == stem_id(path@),
        r.0.is_plain(),
{
    let parent: FilePath = match path.parent() {
        Some(dir) => dir,
        None => FilePath::empty(),
    };
    let stem: Vec<u8> = match path.file_stem() {
        Some(stem) => stem,
        None => Vec::new(),
    };
    assert(stem@ =~= match stem_of(path@) {
        Some(stem) => stem,
        None => seq![],
    });
    let name: String = lossy(&stem);
    (parent, lowercase(name.as_str()))
}

/// Files that belong together, and what they have in common.
#[derive(Debug)]
pub struct Group {
    pub parent: FilePath,
    pub stem: String,
    pub files: Vec<FilePath>,
}

/// What a group holds.
#[verifier::ext_equal]
pub struct GroupView {
    pub parent: Seq<Part>,
    pub stem: Seq<char>,
    pub files: Seq<PathView>,
}

impl View for Group {
    type V = GroupView;

    open spec fn view(&self) -> GroupView {
        GroupView { parent: self.parent@, stem: self.stem@, files: spelled_view(self.files@) }
    }
}

/// Whether the directory of each group is written plainly.
pub open spec fn parents_are_plain(list: Seq<Group>) -> bool {
    forall|k: int| 0 <= k < list.len() ==> (#[trigger] list[k]).parent.is_plain()
}

/// What each of a list of groups holds.
pub open spec fn groups_view(list: Seq<Group>) -> Seq<GroupView> {
    Seq::new(list.len(), |i: int| list[i]@)
}

/// What decides where a group comes: its directory, and then its name.
pub open spec fn group_key(parent: Seq<Part>, stem: Seq<char>) -> Seq<u64> {
    path_key(parent).push(0) + Seq::new(stem.len(), |i: int| stem[i] as u64)
}

/// The group of that directory and that name.
pub open spec fn group_place(groups: Seq<GroupView>, parent: Seq<Part>, stem: Seq<char>, from: int) -> int
    decreases groups.len() - from,
{
    if from < 0 || from >= groups.len() {
        groups.len() as int
    } else if groups[from].parent == parent && groups[from].stem == stem {
        from
    } else {
        group_place(groups, parent, stem, from + 1)
    }
}

/// Where a new group goes: in front of the first that comes after it.
pub open spec fn insert_place(groups: Seq<GroupView>, key: Seq<u64>, from: int) -> int
    decreases groups.len() - from,
{
    if from < 0 || from >= groups.len() {
        groups.len() as int
    } else if lex_less(key, group_key(groups[from].parent, groups[from].stem)) {
        from
    } else {
        insert_place(groups, key, from + 1)
    }
}

/// The groups with one more file.
pub open spec fn with_file(
    groups: Seq<GroupView>,
    parent: Seq<Part>,
    stem: Seq<char>,
    file: PathView,
) -> Seq<GroupView> {
    let i = group_place(groups, parent, stem, 0);
    if i < groups.len() {
        groups.update(i, GroupView { files: groups[i].files.push(file), ..groups[i] })
    } else {
        groups.insert(
            insert_place(groups, group_key(parent, stem), 0),
            GroupView { parent, stem, files: seq![file] },
        )
    }
}

/// The files in groups of the same name, in the order of the groups.
pub open spec fn by_stem(files: Seq<PathView>) -> Seq<GroupView>
    decreases files.len(),
{
    if files.len() == 0 {
        seq![]
    } else {
        let id = stem_id(files.last().parts);
        with_file(by_stem(files.drop_last()), id.0, id.1, files.last())
    }
}

fn group_key_of(parent: &FilePath, stem: &str) -> (r: Vec<u64>)
    ensures
        r@ == group_key(parent@, stem@),
{
    let mut key: Vec<u64> = key_of_path(parent);
    key.push(0);
    let ghost head = key@;
    let chars: Vec<char> = chars_of(stem);
    let mut i: usize = 0;
    while i < chars.len()
        invariant
            i <= chars@.len(),
            chars@ == stem@,
            key@ == head + Seq::new(i as nat, |k: int| stem@[k] as u64),
        decreases chars@.len() - i,
    {
        key.push(chars[i] as u64);
        i = i + 1;
        assert(key@ =~= head + Seq::new(i as nat, |k: int| stem@[k] as u64));
    }
    assert(key@ =~= group_key(parent@, stem@));
    key
}

/// Adds a file to the group it belongs to.
fn add_file(groups: &mut Vec<Group>, parent: FilePath, stem: String, file: FilePath)
    requires
        parents_are_plain(old(groups)@),
        parent.is_plain(),
    ensures
        parents_are_plain(final(groups)@),
        groups_view(final(groups)@) == with_file(
            groups_view(old(groups)@),
            parent@,
            stem@,
            file.spelled(),
        ),
{
    let ghost all = groups_view(groups@);
    let mut i: usize = 0;
    while i < groups.len() && !(groups[i].parent.same(&parent) && text_eq(
        groups[i].stem.as_str(),
        stem.as_str(),
    ))
        invariant
            i <= groups@.len(),
            groups@ == old(groups)@,
            all == groups_view(groups@),
            group_place(all, parent@, stem@, 0) == group_place(all, parent@, stem@, i as int),
        decreases groups@.len() - i,
    {
        assert(all[i as int] == groups@[i as int]@);
        i = i + 1;
    }
    if i < groups.len() {
        assert(all[i as int] == groups@[i as int]@);
        let mut group: Group = groups.remove(i);
        let ghost files = spelled_view(group.files@);
        group.files.push(file);
        assert(spelled_view(group.files@) =~= files.push(file.spelled()));
        groups.insert(i, group);
        assert(groups_view(groups@) =~= with_file(all, parent@, stem@, file.spelled()));
    } else {
        let key: Vec<u64> = group_key_of(&parent, stem.as_str());
        let mut at: usize = 0;
        while at < groups.len() && !key_less(&key, &groups[at])
            invariant
                at <= groups@.len(),
                groups@ == old(groups)@,
                all == groups_view(groups@),
                insert_place(all, key@, 0) == insert_place(all, key@, at as int),
            decreases groups@.len() - at,
        {
            assert(all[at as int] == groups@[at as int]@);
            at = at + 1;
        }
        if at < groups.len() {
            assert(all[at as int] == groups@[at as int]@);
        }
        let mut files: Vec<FilePath> = Vec::new();
        files.push(file);
        assert(spelled_view(files@) =~= seq![file.spelled()]);
        groups.insert(at, Group { parent, stem, files });
        assert(groups_view(groups@) =~= with_file(all, parent@, stem@, file.spelled()));
    }
}

fn key_less(key: &Vec<u64>, group: &Group) -> (r: bool)
    ensures
        r == lex_less(key@, group_key(group.parent@, group.stem@)),
{
    let other: Vec<u64> = group_key_of(&group.parent, group.stem.as_str());
    crate::order::less(key, &other)
}

/// The files in groups of the same name, in the order of the groups.
pub fn group_by_stem(files: &Vec<FilePath>) -> (r: Vec<Group>)
    ensures
        groups_view(r@) == by_stem(spelled_view(files@)),
        parents_are_plain(r@),
{
    let ghost all = spelled_view(files@);
    let mut groups: Vec<Group> = Vec::new();
    let mut i: usize = 0;
    assert(all.take(0) =~= seq![]);
    assert(groups_view(groups@) =~= seq![]);
    while i < files.len()
        invariant
            i <= files@.len(),
            all == spelled_view(files@),
            groups_view(groups@) == by_stem(all.take(i as int)),
            parents_are_plain(groups@),
        decreases files@.len() - i,
    {
        assert(all.take(i + 1).drop_last() =~= all.take(i as int));
        assert(all.take(i + 1).last() == files@[i as int].spelled());
        let (parent, stem) = stem_key(&files[i]);
        add_file(&mut groups, parent, stem, files[i].clone());
        i = i + 1;
    }
    assert(all.take(i as int) =~= all);
    groups
}

/// A file of a group has the directory and the name of the group.
pub open spec fn well_grouped(groups: Seq<GroupView>) -> bool {
    forall|g: int, k: int|
        0 <= g < groups.len() && 0 <= k < groups[g].files.len() ==> stem_id(
            (#[trigger] groups[g].files[k]).parts,
        ) == (groups[g].parent, groups[g].stem)
}

/// No two groups have the same directory and the same name.
pub open spec fn distinct_groups(groups: Seq<GroupView>) -> bool {
    forall|a: int, b: int|
        0 <= a < b < groups.len() ==> ((#[trigger] groups[a]).parent, groups[a].stem) != ((
        #[trigger] groups[b]).parent, groups[b].stem)
}

/// The files stand in some group.
pub open spec fn grouped_somewhere(groups: Seq<GroupView>, file: PathView) -> bool {
    exists|g: int| 0 <= g < groups.len() && (#[trigger] groups[g]).files.contains(file)
}

/// Files stand in the same group exactly where they have the same directory and
/// the same name, and no file is lost.
pub proof fn grouping_is_by_stem(files: Seq<PathView>)
    ensures
        well_grouped(by_stem(files)),
        distinct_groups(by_stem(files)),
        forall|i: int| 0 <= i < files.len() ==> #[trigger] grouped_somewhere(
            by_stem(files),
            files[i],
        ),
    decreases files.len(),
{
    if files.len() > 0 {
        let rest = files.drop_last();
        grouping_is_by_stem(rest);
        let groups = by_stem(rest);
        let file = files.last();
        let id = stem_id(file.parts);
        let after = by_stem(files);
        lemma_group_place(groups, id.0, id.1, 0);
        lemma_insert_place(groups, group_key(id.0, id.1), 0);
        let i = group_place(groups, id.0, id.1, 0);
        let at = insert_place(groups, group_key(id.0, id.1), 0);
        if i < groups.len() {
            assert forall|g: int, k: int|
                0 <= g < after.len() && 0 <= k < after[g].files.len() implies stem_id(
                (#[trigger] after[g].files[k]).parts,
            ) == (after[g].parent, after[g].stem) by {
                if g != i {
                    assert(groups[g].files[k] == after[g].files[k]);
                } else if k < groups[g].files.len() {
                    assert(groups[g].files[k] == after[g].files[k]);
                }
            }
            assert(after[i].files.last() == file);
            assert(after[i].files.contains(file));
            assert forall|n: int| 0 <= n < files.len() implies #[trigger] grouped_somewhere(
                after,
                files[n],
            ) by {
                if n < rest.len() {
                    assert(grouped_somewhere(groups, rest[n]));
                    let g = choose|g: int|
                        0 <= g < groups.len() && (#[trigger] groups[g]).files.contains(rest[n]);
                    let k = choose|k: int|
                        0 <= k < groups[g].files.len() && groups[g].files[k] == rest[n];
                    assert(after[g].files[k] == rest[n]);
                    assert(after[g].files.contains(rest[n]));
                }
            }
        } else {
            assert(after[at] == GroupView { parent: id.0, stem: id.1, files: seq![file] });
            assert(after[at].files[0] == file);
            assert forall|g: int, k: int|
                0 <= g < after.len() && 0 <= k < after[g].files.len() implies stem_id(
                (#[trigger] after[g].files[k]).parts,
            ) == (after[g].parent, after[g].stem) by {
                if g < at {
                    assert(groups[g].files[k] == after[g].files[k]);
                } else if g > at {
                    assert(groups[g - 1].files[k] == after[g].files[k]);
                }
            }
            assert forall|a: int, b: int| 0 <= a < b < after.len() implies ((
            #[trigger] after[a]).parent, after[a].stem) != ((#[trigger] after[b]).parent, after[b].stem) by {
                let x = if a > at {
                    a - 1
                } else {
                    a
                };
                let y = if b > at {
                    b - 1
                } else {
                    b
                };
                if a == at {
                    assert(after[b] == groups[y]);
                } else if b == at {
                    assert(after[a] == groups[x]);
                } else {
                    assert(after[a] == groups[x]);
                    assert(after[b] == groups[y]);
                }
            }
            assert(after[at].files.contains(file));
            assert forall|n: int| 0 <= n < files.len() implies #[trigger] grouped_somewhere(
                after,
                files[n],
            ) by {
                if n < rest.len() {
                    assert(grouped_somewhere(groups, rest[n]));
                    let g = choose|g: int|
                        0 <= g < groups.len() && (#[trigger] groups[g]).files.contains(rest[n]);
                    let place = if g < at {
                        g
                    } else {
                        g + 1
                    };
                    assert(after[place] == groups[g]);
                }
            }
        }
    }
}

proof fn lemma_group_place(groups: Seq<GroupView>, parent: Seq<Part>, stem: Seq<char>, from: int)
    requires
        0 <= from,
    ensures
        ({
            let i = group_place(groups, parent, stem, from);
            &&& forall|k: int|
                from <= k < i && k < groups.len() ==> ((#[trigger] groups[k]).parent, groups[k].stem)
                    != (parent, stem)
            &&& i < groups.len() ==> from <= i && groups[i].parent == parent && groups[i].stem
                == stem
            &&& i <= groups.len()
        }),
    decreases groups.len() - from,
{
    if from < groups.len() && !(groups[from].parent == parent && groups[from].stem == stem) {
        lemma_group_place(groups, parent, stem, from + 1);
    }
}

proof fn lemma_insert_place(groups: Seq<GroupView>, key: Seq<u64>, from: int)
    requires
        0 <= from,
    ensures
        0 <= insert_place(groups, key, from) <= groups.len(),
    decreases groups.len() - from,
{
    if from < groups.len() {
        lemma_insert_place(groups, key, from + 1);
    }
}

// The best of a group --------------------------------------------------------

/// How good a lossless file is, zero being best; none for one that is lossy.
pub open spec fn lossless_rank(path: Seq<Part>, info: InfoView) -> Option<int> {
    let ext = ascii_lower(
        match extension_of(path) {
            Some(ext) => lossy_text(ext),
            None => seq![],
        },
    );
    if !info.is_lossless {
        None
    } else if ext == "wav"@ || ext == "aiff"@ {
        Some(0)
    } else if ext == "flac"@ {
        Some(1)
    } else {
        Some(2)
    }
}

/// What each of a list of candidates holds.
pub open spec fn candidates_view(list: Seq<(FilePath, FileInfo)>) -> Seq<(PathView, InfoView)> {
    Seq::new(list.len(), |i: int| (list[i].0.spelled(), list[i].1@))
}

pub open spec fn rank_at(group: Seq<(PathView, InfoView)>, i: int) -> Option<int> {
    lossless_rank(group[i].0.parts, group[i].1)
}

/// One of the candidates is lossless.
pub open spec fn some_lossless(group: Seq<(PathView, InfoView)>) -> bool {
    exists|i: int| 0 <= i < group.len() && #[trigger] rank_at(group, i) is Some
}

/// The candidate to take: the first of the best lossless ones, and the last of
/// those with the highest bit rate where all are lossy.
pub open spec fn is_best(group: Seq<(PathView, InfoView)>, best: int) -> bool {
    &&& 0 <= best < group.len()
    &&& if some_lossless(group) {
        &&& rank_at(group, best) is Some
        &&& forall|j: int|
            0 <= j < group.len() && #[trigger] rank_at(group, j) is Some ==> (rank_at(
                group,
                best,
            )->0 <= rank_at(group, j)->0 && (j < best ==> rank_at(group, best)->0 < rank_at(
                group,
                j,
            )->0))
    } else {
        forall|j: int|
            0 <= j < group.len() ==> (#[trigger] group[j]).1.bit_rate_bps
                <= group[best].1.bit_rate_bps && (j > best ==> group[j].1.bit_rate_bps
                < group[best].1.bit_rate_bps)
    }
}

/// A lossless file is taken in front of every lossy one.
pub proof fn lossless_beats_lossy(group: Seq<(PathView, InfoView)>, best: int, other: int)
    requires
        is_best(group, best),
        0 <= other < group.len(),
        group[other].1.is_lossless,
    ensures
        group[best].1.is_lossless,
{
    assert(rank_at(group, other) is Some);
}

/// There is one candidate to take only.
pub proof fn the_best_is_unique(group: Seq<(PathView, InfoView)>, a: int, b: int)
    requires
        is_best(group, a),
        is_best(group, b),
    ensures
        a == b,
{
    if some_lossless(group) {
        assert(rank_at(group, a) is Some);
        assert(rank_at(group, b) is Some);
    } else {
        assert(group[a].1.bit_rate_bps <= group[b].1.bit_rate_bps);
        assert(group[b].1.bit_rate_bps <= group[a].1.bit_rate_bps);
    }
}

/// How good a lossless file is, zero being best.
pub fn lossless_score(path: &FilePath, info: &FileInfo) -> (r: Option<u8>)
    ensures
        match r {
            Some(n) => lossless_rank(path@, info@) == Some(n as int),
            None => lossless_rank(path@, info@) is None,
        },
{
    if !info.is_lossless {
        return None;
    }
    let ext: String = match path.extension() {
        Some(ext) => {
            let text: String = lossy(&ext);
            to_ascii_lowercase(text.as_str())
        },
        None => {
            let none: String = String::new();
            assert(none@ =~= ascii_lower(seq![]));
            none
        },
    };
    if text_eq(ext.as_str(), "wav") || text_eq(ext.as_str(), "aiff") {
        Some(0)
    } else if text_eq(ext.as_str(), "flac") {
        Some(1)
    } else {
        Some(2)
    }
}

/// The place of the candidate to take.
fn best_place(group: &Vec<(FilePath, FileInfo)>) -> (r: usize)
    requires
        group@.len() > 0,
    ensures
        is_best(candidates_view(group@), r as int),
{
    let ghost all = candidates_view(group@);
    let mut found: Option<(u8, usize)> = None;
    let mut loudest: usize = 0;
    let mut i: usize = 0;
    while i < group.len()
        invariant
            i <= group@.len(),
            group@.len() > 0,
            all == candidates_view(group@),
            match found {
                Some((rank, at)) => {
                    &&& at < i
                    &&& rank_at(all, at as int) == Some(rank as int)
                    &&& forall|j: int|
                        0 <= j < i && #[trigger] rank_at(all, j) is Some ==> (rank <= rank_at(
                            all,
                            j,
                        )->0 && (j < at ==> rank < rank_at(all, j)->0))
                },
                None => forall|j: int| 0 <= j < i ==> #[trigger] rank_at(all, j) is None,
            },
            i == 0 ==> loudest == 0,
            i > 0 ==> loudest < i && forall|j: int|
                0 <= j < i ==> (#[trigger] all[j]).1.bit_rate_bps
                    <= all[loudest as int].1.bit_rate_bps && (j > loudest ==> all[j].1.bit_rate_bps
                    < all[loudest as int].1.bit_rate_bps),
        decreases group@.len() - i,
    {
        assert(all[i as int] == (group@[i as int].0.spelled(), group@[i as int].1@));
        assert(all[loudest as int] == (group@[loudest as int].0.spelled(), group@[loudest as int].1@));
        match lossless_score(&group[i].0, &group[i].1) {
            Some(rank) => {
                let better: bool = match found {
                    Some((best, _)) => rank < best,
                    None => true,
                };
                if better {
                    found = Some((rank, i));
                }
            },
            None => {},
        }
        if i == 0 || group[i].1.bit_rate_bps >= group[loudest].1.bit_rate_bps {
            loudest = i;
        }
        i = i + 1;
    }
    match found {
        Some((_, at)) => {
            assert(rank_at(all, at as int) is Some);
            at
        },
        None => loudest,
    }
}

/// The best file of a group of the same name, and the others, in order.
pub fn select_best_from_group(group: Vec<(FilePath, FileInfo)>) -> (r: (
    (FilePath, FileInfo),
    Vec<FilePath>,
))
    requires
        group@.len() > 0,
    ensures
        exists|best: int|
            #[trigger] is_best(candidates_view(group@), best) && (r.0.0.spelled(), r.0.1@)
                == candidates_view(group@)[best] && spelled_view(r.1@) == rejected(
                candidates_view(group@),
                best,
            ),
{
    let ghost all = candidates_view(group@);
    let at: usize = best_place(&group);
    let mut group = group;
    let best: (FilePath, FileInfo) = group.remove(at);
    assert((best.0.spelled(), best.1@) == all[at as int]);
    let mut others: Vec<FilePath> = Vec::new();
    let mut i: usize = 0;
    while i < group.len()
        invariant
            i <= group@.len(),
            others@.len() == i,
            forall|k: int| 0 <= k < i ==> (#[trigger] others@[k]).spelled() == group@[k].0.spelled(),
        decreases group@.len() - i,
    {
        others.push(group[i].0.clone());
        i = i + 1;
    }
    assert(spelled_view(others@) =~= rejected(all, at as int));
    (best, others)
}

/// The paths of all candidates but one, in order.
pub open spec fn rejected(group: Seq<(PathView, InfoView)>, best: int) -> Seq<PathView> {
    let rest = group.remove(best);
    Seq::new(rest.len(), |i: int| rest[i].0)
}

// Walking through folders ----------------------------------------------------

/// Files found in one folder, to be converted together, and what could not be
/// read.
#[derive(Debug)]
pub struct ScanBatch {
    pub files: Vec<FilePath>,
    pub errors: Vec<(FilePath, String)>,
}

/// All files found below some paths, and what could not be read.
#[derive(Debug)]
pub struct CollectedFiles {
    pub files: Vec<FilePath>,
    pub errors: Vec<(FilePath, String)>,
}

/// What each of a list of errors holds.
pub open spec fn errors_view(list: Seq<(FilePath, String)>) -> Seq<(PathView, Seq<char>)> {
    Seq::new(list.len(), |i: int| (list[i].0.spelled(), list[i].1@))
}

/// What stands in a folder.
#[derive(Debug)]
pub enum Entry {
    File(FilePath),
    Folder(FilePath),
    /// Neither a file nor a folder, such as a link, which is not followed.
    Other,
    /// An entry that could not be read.
    Failed(FilePath, String),
}

/// What a path turned out to be.
#[derive(Debug)]
pub enum Finding {
    File,
    Missing,
    /// A folder that could not be listed, for the reason given.
    Unreadable(String),
    Folder(Vec<Entry>),
}

/// The files among the entries of a folder.
pub open spec fn entry_files(entries: Seq<Entry>) -> Seq<PathView>
    decreases entries.len(),
{
    if entries.len() == 0 {
        seq![]
    } else {
        match entries.last() {
            Entry::File(path) => entry_files(entries.drop_last()).push(path.spelled()),
            _ => entry_files(entries.drop_last()),
        }
    }
}

/// The folders among the entries of a folder.
pub open spec fn entry_folders(entries: Seq<Entry>) -> Seq<PathView>
    decreases entries.len(),
{
    if entries.len() == 0 {
        seq![]
    } else {
        match entries.last() {
            Entry::Folder(path) => entry_folders(entries.drop_last()).push(path.spelled()),
            _ => entry_folders(entries.drop_last()),
        }
    }
}

/// The entries of a folder that could not be read.
pub open spec fn entry_errors(entries: Seq<Entry>) -> Seq<(PathView, Seq<char>)>
    decreases entries.len(),
{
    if entries.len() == 0 {
        seq![]
    } else {
        match entries.last() {
            Entry::Failed(path, e) => entry_errors(entries.drop_last()).push((path.spelled(), e@)),
            _ => entry_errors(entries.drop_last()),
        }
    }
}

pub open spec fn missing_path() -> Seq<char> {
    "path does not exist or is not accessible"@
}

/// The batch that a path gives, from what it turned out to be; the files of a
/// folder are in order.
pub open spec fn is_batch_of(
    path: PathView,
    finding: Finding,
    files: Seq<PathView>,
    errors: Seq<(PathView, Seq<char>)>,
) -> bool {
    match finding {
        Finding::File => files == seq![path] && errors.len() == 0,
        Finding::Missing => files.len() == 0 && errors == seq![(path, missing_path())],
        Finding::Unreadable(e) => files.len() == 0 && errors == seq![(path, e@)],
        Finding::Folder(entries) => is_sorted_form(entry_files(entries@), files) && errors
            == entry_errors(entries@),
    }
}

/// What is still to be looked at once a path was: the folders in it come next,
/// in order, and then what was waiting. The next is the last of the list.
pub open spec fn is_stack_after(
    finding: Finding,
    waiting: Seq<PathView>,
    after: Seq<PathView>,
) -> bool {
    match finding {
        Finding::Folder(entries) => exists|folders: Seq<PathView>|
            #[trigger] is_sorted_form(entry_folders(entries@), folders) && after == waiting
                + folders.reverse(),
        _ => after == waiting,
    }
}

/// A walk through files and folders.
#[derive(Debug)]
pub struct Scanner {
    /// Files that were named themselves, those of the same folder together.
    pub groups: Vec<Group>,
    /// What is still to be looked at; the next is the last.
    pub stack: Vec<FilePath>,
}

/// What a walk asks for next.
#[derive(Debug)]
pub enum ScanStep {
    /// The walk is over.
    Done,
    /// A batch is to be sent.
    Send(ScanBatch),
    /// A path is to be looked at, and what it is to be handed back.
    Examine(FilePath),
}

/// The folder that a file which was named itself stands in.
pub open spec fn named_folder(path: Seq<Part>) -> Seq<Part> {
    match parent_of(path) {
        Some(dir) => dir,
        None => seq![Part::Current],
    }
}

/// Files that were named themselves, those of the same folder together, in the
/// order of the folders.
pub open spec fn by_folder(paths: Seq<(PathView, bool)>) -> Seq<GroupView>
    decreases paths.len(),
{
    if paths.len() == 0 {
        seq![]
    } else {
        let before = by_folder(paths.drop_last());
        let (path, is_file) = paths.last();
        if is_file {
            with_file(before, named_folder(path.parts), seq![], path)
        } else {
            before
        }
    }
}

/// The paths that are no files.
pub open spec fn other_paths(paths: Seq<(PathView, bool)>) -> Seq<PathView>
    decreases paths.len(),
{
    if paths.len() == 0 {
        seq![]
    } else {
        let before = other_paths(paths.drop_last());
        let (path, is_file) = paths.last();
        if is_file {
            before
        } else {
            before.push(path)
        }
    }
}

/// What each of a list of paths holds, with whether it is a file.
pub open spec fn marked_view(list: Seq<(FilePath, bool)>) -> Seq<(PathView, bool)> {
    Seq::new(list.len(), |i: int| (list[i].0.spelled(), list[i].1))
}

/// The list the other way round.
fn reversed(list: &Vec<FilePath>) -> (r: Vec<FilePath>)
    ensures
        spelled_view(r@) == spelled_view(list@).reverse(),
{
    let mut r: Vec<FilePath> = Vec::new();
    let mut i: usize = list.len();
    while i > 0
        invariant
            i <= list@.len(),
            r@.len() == list@.len() - i,
            forall|k: int|
                0 <= k < r@.len() ==> (#[trigger] r@[k]).spelled() == list@[list@.len() - 1 - k].spelled(),
        decreases i,
    {
        r.push(list[i - 1].clone());
        i = i - 1;
    }
    assert(spelled_view(r@) =~= spelled_view(list@).reverse());
    r
}

impl Scanner {
    /// A walk through some paths, of each of which is known whether it is a
    /// file. Files of the same folder go together, so that the best of those of
    /// the same name can be chosen; the other paths follow in the order given.
    pub fn new(paths: &Vec<(FilePath, bool)>) -> (r: Scanner)
        ensures
            groups_view(r.groups@) == by_folder(marked_view(paths@)),
            parents_are_plain(r.groups@),
            spelled_view(r.stack@) == other_paths(marked_view(paths@)).reverse(),
    {
        let ghost all = marked_view(paths@);
        let mut groups: Vec<Group> = Vec::new();
        let mut roots: Vec<FilePath> = Vec::new();
        let mut i: usize = 0;
        assert(all.take(0) =~= seq![]);
        assert(groups_view(groups@) =~= seq![]);
        assert(spelled_view(roots@) =~= seq![]);
        while i < paths.len()
            invariant
                i <= paths@.len(),
                all == marked_view(paths@),
                groups_view(groups@) == by_folder(all.take(i as int)),
                parents_are_plain(groups@),
                spelled_view(roots@) == other_paths(all.take(i as int)),
            decreases paths@.len() - i,
        {
            assert(all.take(i + 1).drop_last() =~= all.take(i as int));
            assert(all.take(i + 1).last() == (paths@[i as int].0.spelled(), paths@[i as int].1));
            let ghost before = spelled_view(roots@);
            if paths[i].1 {
                let folder: FilePath = match paths[i].0.parent() {
                    Some(dir) => dir,
                    None => FilePath::current(),
                };
                let stem: String = String::new();
                assert(stem@ =~= seq![]);
                add_file(&mut groups, folder, stem, paths[i].0.clone());
            } else {
                roots.push(paths[i].0.clone());
                assert(spelled_view(roots@) =~= before.push(paths@[i as int].0.spelled()));
            }
            i = i + 1;
        }
        assert(all.take(i as int) =~= all);
        Scanner { groups, stack: reversed(&roots) }
    }

    /// What the walk asks for next: first the files that were named themselves,
    /// folder by folder, and then the other paths; nothing more once the session
    /// is being stopped.
    pub fn next(&mut self, cancelled: bool) -> (r: ScanStep)
        ensures
            match r {
                ScanStep::Done => (cancelled || (old(self).groups@.len() == 0 && old(self).stack@.len() == 0)) && final(self).groups@ == old(self).groups@ && final(self).stack@
                    == old(self).stack@,
                ScanStep::Send(batch) => {
                    &&& !cancelled
                    &&& old(self).groups@.len() > 0
                    &&& is_sorted_form(
                        groups_view(old(self).groups@)[0].files,
                        spelled_view(batch.files@),
                    )
                    &&& batch.errors@.len() == 0
                    &&& groups_view(final(self).groups@) == groups_view(old(self).groups@).skip(1)
                    &&& spelled_view(final(self).stack@) == spelled_view(old(self).stack@)
                },
                ScanStep::Examine(path) => {
                    &&& !cancelled
                    &&& old(self).groups@.len() == 0
                    &&& old(self).stack@.len() > 0
                    &&& path.spelled() == spelled_view(old(self).stack@).last()
                    &&& final(self).groups@.len() == 0
                    &&& spelled_view(final(self).stack@) == spelled_view(old(self).stack@).drop_last()
                },
            },
    {
        if cancelled {
            return ScanStep::Done;
        }
        if self.groups.len() > 0 {
            let group: Group = self.groups.remove(0);
            assert(groups_view(self.groups@) =~= groups_view(old(self).groups@).skip(1));
            let files: Vec<FilePath> = sort_paths(&group.files);
            return ScanStep::Send(ScanBatch { files, errors: Vec::new() });
        }
        match self.stack.pop() {
            Some(path) => {
                assert(spelled_view(self.stack@) =~= spelled_view(old(self).stack@).drop_last());
                ScanStep::Examine(path)
            },
            None => ScanStep::Done,
        }
    }

    /// What a path turned out to be: gives the batch to send, and puts the
    /// folders in it in front of what was waiting.
    pub fn examined(&mut self, path: FilePath, finding: &Finding) -> (batch: ScanBatch)
        ensures
            is_batch_of(path.spelled(), *finding, spelled_view(batch.files@), errors_view(batch.errors@)),
            is_stack_after(*finding, spelled_view(old(self).stack@), spelled_view(final(self).stack@)),
            final(self).groups@ == old(self).groups@,
    {
        let mut files: Vec<FilePath> = Vec::new();
        let mut errors: Vec<(FilePath, String)> = Vec::new();
        match finding {
            Finding::File => {
                files.push(path);
                assert(spelled_view(files@) =~= seq![path.spelled()]);
            },
            Finding::Missing => {
                errors.push((path, "path does not exist or is not accessible".to_owned()));
                assert(errors_view(errors@) =~= seq![(path.spelled(), missing_path())]);
            },
            Finding::Unreadable(e) => {
                errors.push((path, e.clone()));
                assert(errors_view(errors@) =~= seq![(path.spelled(), e@)]);
            },
            Finding::Folder(entries) => {
                let mut folders: Vec<FilePath> = Vec::new();
                let ghost all = entries@;
                let mut i: usize = 0;
                assert(all.take(0) =~= seq![]);
                assert(spelled_view(files@) =~= seq![]);
                assert(spelled_view(folders@) =~= seq![]);
                assert(errors_view(errors@) =~= seq![]);
                while i < entries.len()
                    invariant
                        i <= entries@.len(),
                        all == entries@,
                        spelled_view(files@) == entry_files(all.take(i as int)),
                        spelled_view(folders@) == entry_folders(all.take(i as int)),
                        errors_view(errors@) == entry_errors(all.take(i as int)),
                    decreases entries@.len() - i,
                {
                    assert(all.take(i + 1).drop_last() =~= all.take(i as int));
                    assert(all.take(i + 1).last() == entries@[i as int]);
                    let ghost f = spelled_view(files@);
                    let ghost d = spelled_view(folders@);
                    let ghost e = errors_view(errors@);
                    match &entries[i] {
                        Entry::File(p) => {
                            files.push(p.clone());
                            assert(spelled_view(files@) =~= f.push(p.spelled()));
                        },
                        Entry::Folder(p) => {
                            folders.push(p.clone());
                            assert(spelled_view(folders@) =~= d.push(p.spelled()));
                        },
                        Entry::Other => {},
                        Entry::Failed(p, reason) => {
                            errors.push((p.clone(), reason.clone()));
                            assert(errors_view(errors@) =~= e.push((p.spelled(), reason@)));
                        },
                    }
                    i = i + 1;
                }
                assert(all.take(i as int) =~= all);
                files = sort_paths(&files);
                let ordered: Vec<FilePath> = sort_paths(&folders);
                let ghost waiting = spelled_view(self.stack@);
                let mut next: Vec<FilePath> = reversed(&ordered);
                let ghost added = spelled_view(next@);
                self.stack.append(&mut next);
                assert(spelled_view(self.stack@) =~= waiting + added);
            },
        }
        ScanBatch { files, errors }
    }
}

/// After a folder, the first folder in it is looked at, if there is one: before
/// anything that was waiting, and after its own files were sent.
pub proof fn folders_are_walked_depth_first(
    entries: Vec<Entry>,
    waiting: Seq<PathView>,
    after: Seq<PathView>,
)
    requires
        is_stack_after(Finding::Folder(entries), waiting, after),
    ensures
        exists|folders: Seq<PathView>|
            #[trigger] is_sorted_form(entry_folders(entries@), folders) && after.len()
                == waiting.len() + folders.len() && (folders.len() > 0 ==> after.last()
                == folders[0]) && after.take(waiting.len() as int) == waiting,
{
    let folders = choose|folders: Seq<PathView>|
        #[trigger] is_sorted_form(entry_folders(entries@), folders) && after == waiting
            + folders.reverse();
    assert(after.take(waiting.len() as int) =~= waiting);
}

/// What becomes of a batch.
#[derive(Debug)]
pub enum Dispatch {
    /// The walk is to be given up.
    Stop,
    /// There is nothing to send.
    Nothing,
    Send(ScanBatch),
}

/// What becomes of a batch: nothing is sent once the session is being stopped,
/// nor where the batch is empty.
pub fn send_batch(cancelled: bool, batch: ScanBatch) -> (r: Dispatch)
    ensures
        r == (if cancelled {
            Dispatch::Stop
        } else if batch.files@.len() == 0 && batch.errors@.len() == 0 {
            Dispatch::Nothing
        } else {
            Dispatch::Send(batch)
        }),
{
    if cancelled {
        Dispatch::Stop
    } else if batch.files.len() == 0 && batch.errors.len() == 0 {
        Dispatch::Nothing
    } else {
        Dispatch::Send(batch)
    }
}

/// What each of a list of paths and what it turned out to be holds, as files in
/// the order found.
pub open spec fn found_files(list: Seq<(FilePath, Finding)>) -> Seq<PathView>
    decreases list.len(),
{
    if list.len() == 0 {
        seq![]
    } else {
        let before = found_files(list.drop_last());
        match list.last().1 {
            Finding::File => before.push(list.last().0.spelled()),
            Finding::Folder(entries) => before + entry_files(entries@),
            _ => before,
        }
    }
}

/// What could not be read, in the order found.
pub open spec fn found_errors(list: Seq<(FilePath, Finding)>) -> Seq<(PathView, Seq<char>)>
    decreases list.len(),
{
    if list.len() == 0 {
        seq![]
    } else {
        let before = found_errors(list.drop_last());
        match list.last().1 {
            Finding::File => before,
            Finding::Missing => before.push((list.last().0.spelled(), missing_path())),
            Finding::Unreadable(e) => before.push((list.last().0.spelled(), e@)),
            Finding::Folder(entries) => before + entry_errors(entries@),
        }
    }
}

/// All files below some paths, in order, where a folder was listed with all that
/// lies below it.
pub fn collect_audio_files(found: &Vec<(FilePath, Finding)>) -> (r: CollectedFiles)
    ensures
        is_sorted_form(found_files(found@), spelled_view(r.files@)),
        errors_view(r.errors@) == found_errors(found@),
{
    let ghost all = found@;
    let mut files: Vec<FilePath> = Vec::new();
    let mut errors: Vec<(FilePath, String)> = Vec::new();
    let mut i: usize = 0;
    assert(all.take(0) =~= seq![]);
    assert(spelled_view(files@) =~= seq![]);
    assert(errors_view(errors@) =~= seq![]);
    while i < found.len()
        invariant
            i <= found@.len(),
            all == found@,
            spelled_view(files@) == found_files(all.take(i as int)),
            errors_view(errors@) == found_errors(all.take(i as int)),
        decreases found@.len() - i,
    {
        assert(all.take(i + 1).drop_last() =~= all.take(i as int));
        assert(all.take(i + 1).last() == found@[i as int]);
        let ghost f = spelled_view(files@);
        let ghost e = errors_view(errors@);
        match &found[i].1 {
            Finding::File => {
                files.push(found[i].0.clone());
                assert(spelled_view(files@) =~= f.push(found@[i as int].0.spelled()));
            },
            Finding::Missing => {
                errors.push(
                    (found[i].0.clone(), "path does not exist or is not accessible".to_owned()),
                );
                assert(errors_view(errors@) =~= e.push((found@[i as int].0.spelled(), missing_path())));
            },
            Finding::Unreadable(reason) => {
                errors.push((found[i].0.clone(), reason.clone()));
                assert(errors_view(errors@) =~= e.push((found@[i as int].0.spelled(), reason@)));
            },
            Finding::Folder(entries) => {
                let ghost inner = entries@;
                let mut k: usize = 0;
                assert(inner.take(0) =~= seq![]);
                assert(f + entry_files(inner.take(0)) =~= f);
                assert(e + entry_errors(inner.take(0)) =~= e);
                while k < entries.len()
                    invariant
                        k <= entries@.len(),
                        inner == entries@,
                        spelled_view(files@) == f + entry_files(inner.take(k as int)),
                        errors_view(errors@) == e + entry_errors(inner.take(k as int)),
                    decreases entries@.len() - k,
                {
                    assert(inner.take(k + 1).drop_last() =~= inner.take(k as int));
                    assert(inner.take(k + 1).last() == entries@[k as int]);
                    let ghost f1 = spelled_view(files@);
                    let ghost e1 = errors_view(errors@);
                    match &entries[k] {
                        Entry::File(p) => {
                            files.push(p.clone());
                            assert(spelled_view(files@) =~= f1.push(p.spelled()));
                            assert(f1.push(p.spelled()) =~= f + entry_files(inner.take(k + 1)));
                        },
                        Entry::Failed(p, reason) => {
                            errors.push((p.clone(), reason.clone()));
                            assert(errors_view(errors@) =~= e1.push((p.spelled(), reason@)));
                            assert(e1.push((p.spelled(), reason@)) =~= e + entry_errors(inner.take(k + 1)));
                        },
                        _ => {},
                    }
                    k = k + 1;
                }
                assert(inner.take(k as int) =~= inner);
            },
        }
        i = i + 1;
    }
    assert(all.take(i as int) =~= all);
    let files: Vec<FilePath> = sort_paths(&files);
    CollectedFiles { files, errors }
}

// What is found, and what is chosen ------------------------------------------

/// The extension of a path as it counts for the choice, in small letters.
pub open spec fn small_extension(path: Seq<Part>) -> Seq<char> {
    match extension_of(path) {
        Some(ext) => ascii_lower(lossy_text(ext)),
        None => ascii_lower(seq![]),
    }
}

/// Of files of the same name, one that has lost nothing is chosen where there is
/// one: a wav or an aiff before a flac, and a flac before any other. Where all have
/// lost something, the one with the highest rate is chosen.
pub proof fn the_best_quality_is_chosen(group: Seq<(PathView, InfoView)>, best: int, other: int)
    requires
        is_best(group, best),
        0 <= other < group.len(),
    ensures
        ({
            let chosen = small_extension(group[best].0.parts);
            let left = small_extension(group[other].0.parts);
            let lossless = group[other].1.is_lossless;
            &&& lossless ==> group[best].1.is_lossless
            &&& lossless && (left == "wav"@ || left == "aiff"@) ==> chosen == "wav"@ || chosen
                == "aiff"@
            &&& lossless && left == "flac"@ ==> chosen == "wav"@ || chosen == "aiff"@ || chosen
                == "flac"@
            &&& !group[best].1.is_lossless ==> group[other].1.bit_rate_bps
                <= group[best].1.bit_rate_bps
        }),
{
    reveal_strlit("wav");
    reveal_strlit("aiff");
    reveal_strlit("flac");
    assert("flac"@[0] == 'f' && "aiff"@[0] == 'a' && "wav"@.len() == 3 && "flac"@.len() == 4);
    let path = group[other].0.parts;
    let mine = group[best].0.parts;
    if extension_of(path) is None {
        assert(ascii_lower(seq![]) =~= seq![]);
    }
    if group[other].1.is_lossless {
        assert(rank_at(group, other) is Some);
    }
    assert(rank_at(group, best) is Some ==> group[best].1.is_lossless);
}

/// Two files belong together where they lie in the same folder and have the same
/// name but for the extension and the case of its letters.
pub proof fn the_extension_does_not_part_files(
    dir: Seq<Part>,
    elsewhere: Seq<Part>,
    stem: Seq<u8>,
    ext: Seq<u8>,
    other: Seq<u8>,
)
    requires
        stem.len() > 0,
        !ext.contains(46u8),
        !other.contains(46u8),
    ensures
        stem_id(dir.push(Part::Normal(stem.push(46u8) + ext))) == stem_id(
            dir.push(Part::Normal(stem.push(46u8) + other)),
        ),
        stem_id(dir.push(Part::Normal(stem.push(46u8) + ext))).0 == dir,
        stem_id(dir.push(Part::Normal(stem.push(46u8) + ext))).1 == lowercase_text(
            lossy_text(stem),
        ),
        dir != elsewhere ==> stem_id(dir.push(Part::Normal(stem.push(46u8) + ext))) != stem_id(
            elsewhere.push(Part::Normal(stem.push(46u8) + ext)),
        ),
{
    crate::path::the_last_dot_parts_a_name(stem, ext);
    crate::path::the_last_dot_parts_a_name(stem, other);
    crate::path::a_name_stands_in_its_directory(dir, stem.push(46u8) + ext, ext);
    crate::path::a_name_stands_in_its_directory(dir, stem.push(46u8) + other, ext);
    crate::path::a_name_stands_in_its_directory(elsewhere, stem.push(46u8) + ext, ext);
}

/// A file stands among the entries of a folder.
pub open spec fn is_file_among(entries: Seq<Entry>, file: PathView) -> bool {
    exists|j: int|
        0 <= j < entries.len() && ((#[trigger] entries[j]) matches Entry::File(path)
            && path.spelled() == file)
}

/// Every file of a folder is among its files, every folder among its folders, and
/// everything that could not be read among its errors, with the reason; and
/// nothing else is among them.
pub proof fn every_entry_is_found(entries: Seq<Entry>, i: int)
    ensures
        0 <= i < entries.len() ==> match entries[i] {
            Entry::File(path) => entry_files(entries).contains(path.spelled()),
            Entry::Folder(path) => entry_folders(entries).contains(path.spelled()),
            Entry::Failed(path, e) => entry_errors(entries).contains((path.spelled(), e@)),
            Entry::Other => true,
        },
        entry_files(entries).len() + entry_folders(entries).len() + entry_errors(entries).len()
            <= entries.len(),
        forall|k: int|
            0 <= k < entry_files(entries).len() ==> is_file_among(
                entries,
                #[trigger] entry_files(entries)[k],
            ),
    decreases entries.len(),
{
    if entries.len() > 0 {
        let rest = entries.drop_last();
        every_entry_is_found(rest, i);
        let files = entry_files(rest);
        let folders = entry_folders(rest);
        let errors = entry_errors(rest);
        let last = entries.len() - 1;
        assert(forall|k: int| 0 <= k < files.len() ==> entry_files(entries)[k] == files[k]);
        assert(forall|k: int| 0 <= k < folders.len() ==> entry_folders(entries)[k] == folders[k]);
        assert(forall|k: int| 0 <= k < errors.len() ==> entry_errors(entries)[k] == errors[k]);
        if 0 <= i < last {
            assert(rest[i] == entries[i]);
            match entries[i] {
                Entry::File(path) => {
                    let k = choose|k: int| 0 <= k < files.len() && files[k] == path.spelled();
                    assert(entry_files(entries)[k] == path.spelled());
                },
                Entry::Folder(path) => {
                    let k = choose|k: int| 0 <= k < folders.len() && folders[k] == path.spelled();
                    assert(entry_folders(entries)[k] == path.spelled());
                },
                Entry::Failed(path, e) => {
                    let k = choose|k: int|
                        0 <= k < errors.len() && errors[k] == (path.spelled(), e@);
                    assert(entry_errors(entries)[k] == (path.spelled(), e@));
                },
                Entry::Other => {},
            }
        } else if i == last {
            match entries[i] {
                Entry::File(path) => {
                    assert(entry_files(entries)[files.len() as int] == path.spelled());
                },
                Entry::Folder(path) => {
                    assert(entry_folders(entries)[folders.len() as int] == path.spelled());
                },
                Entry::Failed(path, e) => {
                    assert(entry_errors(entries)[errors.len() as int] == (path.spelled(), e@));
                },
                Entry::Other => {},
            }
        }
        assert forall|k: int| 0 <= k < entry_files(entries).len() implies is_file_among(
            entries,
            #[trigger] entry_files(entries)[k],
        ) by {
            if k < files.len() {
                assert(is_file_among(rest, files[k]));
                let j = choose|j: int|
                    0 <= j < rest.len() && ((#[trigger] rest[j]) matches Entry::File(path)
                        && path.spelled() == files[k]);
                assert(entries[j] == rest[j]);
            } else {
                assert(entries[last] is File);
            }
        }
    }
}

/// Every file that was found, named itself or in a folder, is among the files; a
/// path that is not there or could not be listed is among the errors, and is no
/// file.
pub proof fn every_finding_counts(list: Seq<(FilePath, Finding)>, i: int, file: PathView)
    requires
        0 <= i < list.len(),
    ensures
        match list[i].1 {
            Finding::File => found_files(list).contains(list[i].0.spelled()),
            Finding::Missing => found_errors(list).contains(
                (list[i].0.spelled(), "path does not exist or is not accessible"@),
            ),
            Finding::Unreadable(e) => found_errors(list).contains((list[i].0.spelled(), e@)),
            Finding::Folder(entries) => entry_files(entries@).contains(file) ==> found_files(
                list,
            ).contains(file),
        },
    decreases list.len(),
{
    let rest = list.drop_last();
    let files = found_files(rest);
    let errors = found_errors(rest);
    let all = found_files(list);
    let all_errors = found_errors(list);
    assert(forall|k: int| 0 <= k < files.len() ==> all[k] == files[k]);
    assert(forall|k: int| 0 <= k < errors.len() ==> all_errors[k] == errors[k]);
    if i < rest.len() {
        assert(rest[i] == list[i]);
        every_finding_counts(rest, i, file);
        assert forall|x: PathView| files.contains(x) implies all.contains(x) by {
            let k = choose|k: int| 0 <= k < files.len() && files[k] == x;
            assert(all[k] == x);
        }
        assert forall|x: (PathView, Seq<char>)| errors.contains(x) implies all_errors.contains(x) by {
            let k = choose|k: int| 0 <= k < errors.len() && errors[k] == x;
            assert(all_errors[k] == x);
        }
    } else {
        match list[i].1 {
            Finding::File => {
                assert(all[files.len() as int] == list[i].0.spelled());
            },
            Finding::Missing => {
                assert(all_errors[errors.len() as int] == (list[i].0.spelled(), missing_path()));
            },
            Finding::Unreadable(e) => {
                assert(all_errors[errors.len() as int] == (list[i].0.spelled(), e@));
            },
            Finding::Folder(entries) => {
                if entry_files(entries@).contains(file) {
                    let k = choose|k: int|
                        0 <= k < entry_files(entries@).len() && entry_files(entries@)[k] == file;
                    assert(all[files.len() + k] == file);
                }
            },
        }
    }
}

/// Every path that was named waits to be looked at, unless it is a file; those
/// that are stand in the group of their folder. Nothing is lost.
pub proof fn every_named_path_is_walked(paths: Seq<(PathView, bool)>, i: int)
    requires
        0 <= i < paths.len(),
    ensures
        !paths[i].1 ==> other_paths(paths).contains(paths[i].0),
        paths[i].1 ==> exists|g: int|
            0 <= g < by_folder(paths).len() && (#[trigger] by_folder(paths)[g]).files.contains(
                paths[i].0,
            ) && by_folder(paths)[g].parent == (match parent_of(paths[i].0.parts) {
                Some(dir) => dir,
                None => seq![Part::Current],
            }),
    decreases paths.len(),
{
    let rest = paths.drop_last();
    let before = other_paths(rest);
    let groups = by_folder(rest);
    let (path, is_file) = paths.last();
    let dir = named_folder(path.parts);
    let none: Seq<char> = seq![];
    if i < rest.len() {
        assert(rest[i] == paths[i]);
        every_named_path_is_walked(rest, i);
        if !paths[i].1 {
            let k = choose|k: int| 0 <= k < before.len() && before[k] == paths[i].0;
            assert(other_paths(paths)[k] == paths[i].0);
        } else {
            let g = choose|g: int|
                0 <= g < groups.len() && (#[trigger] groups[g]).files.contains(paths[i].0)
                    && groups[g].parent == named_folder(paths[i].0.parts);
            if is_file {
                lemma_file_added(groups, dir, none, path, g, paths[i].0);
                assert(by_folder(paths) == with_file(groups, dir, none, path));
            } else {
                assert(by_folder(paths)[g] == groups[g]);
            }
        }
    } else if !is_file {
        assert(other_paths(paths)[before.len() as int] == path);
    } else {
        lemma_added_file(groups, dir, none, path);
        assert(by_folder(paths) == with_file(groups, dir, none, path));
    }
}

proof fn lemma_added_file(groups: Seq<GroupView>, parent: Seq<Part>, stem: Seq<char>, file: PathView)
    ensures
        exists|g: int|
            0 <= g < with_file(groups, parent, stem, file).len() && (#[trigger] with_file(
                groups,
                parent,
                stem,
                file,
            )[g]).files.contains(file) && with_file(groups, parent, stem, file)[g].parent == parent,
{
    lemma_group_place(groups, parent, stem, 0);
    lemma_insert_place(groups, group_key(parent, stem), 0);
    let after = with_file(groups, parent, stem, file);
    let i = group_place(groups, parent, stem, 0);
    if i < groups.len() {
        assert(after[i].files.last() == file);
        assert(after[i].files.contains(file));
    } else {
        let at = insert_place(groups, group_key(parent, stem), 0);
        assert(after[at] == GroupView { parent, stem, files: seq![file] });
        assert(after[at].files[0] == file);
        assert(after[at].files.contains(file));
    }
}

proof fn lemma_file_added(
    groups: Seq<GroupView>,
    parent: Seq<Part>,
    stem: Seq<char>,
    file: PathView,
    g: int,
    other: PathView,
)
    requires
        0 <= g < groups.len(),
        groups[g].files.contains(other),
    ensures
        exists|n: int|
            0 <= n < with_file(groups, parent, stem, file).len() && (#[trigger] with_file(
                groups,
                parent,
                stem,
                file,
            )[n]).files.contains(other) && with_file(groups, parent, stem, file)[n].parent
                == groups[g].parent,
{
    lemma_group_place(groups, parent, stem, 0);
    lemma_insert_place(groups, group_key(parent, stem), 0);
    let after = with_file(groups, parent, stem, file);
    let i = group_place(groups, parent, stem, 0);
    let k = choose|k: int| 0 <= k < groups[g].files.len() && groups[g].files[k] == other;
    if i < groups.len() {
        assert(after[g].files[k] == other);
        assert(after[g].files.contains(other));
        assert(after[g].parent == groups[g].parent);
    } else {
        let at = insert_place(groups, group_key(parent, stem), 0);
        let n = if g < at {
            g
        } else {
            g + 1
        };
        assert(after[n] == groups[g]);
        assert(after[n].files.contains(other));
    }
}

/// Of files of one quality, the first is chosen of those that have lost nothing,
/// and the last of those that have lost something.
pub proof fn ties_are_settled_by_place(group: Seq<(PathView, InfoView)>, best: int, other: int)
    requires
        is_best(group, best),
        0 <= other < group.len(),
        other != best,
    ensures
        group[best].1.is_lossless && group[other].1.is_lossless && small_extension(
            group[best].0.parts,
        ) == small_extension(group[other].0.parts) ==> best < other,
        !group[best].1.is_lossless && group[other].1.bit_rate_bps == group[best].1.bit_rate_bps
            ==> other < best,
{
    let path = group[other].0.parts;
    let mine = group[best].0.parts;
    if group[other].1.is_lossless {
        assert(rank_at(group, other) is Some);
    }
    if group[best].1.is_lossless {
        assert(rank_at(group, best) is Some);
    }
}

/// No folder below the common one holds every path: whatever holds them all lies
/// in front of it. Where all lie in one folder, it is that one.
pub proof fn the_common_folder_is_the_deepest(
    base: Seq<Part>,
    dirs: Seq<Seq<Part>>,
    other: Seq<Part>,
)
    requires
        is_deepest(base, dirs),
        dirs.len() > 0,
        forall|i: int| 0 <= i < dirs.len() ==> other.is_prefix_of(#[trigger] dirs[i]),
    ensures
        other.is_prefix_of(base),
        forall|i: int| 0 <= i < dirs.len() ==> base.is_prefix_of(#[trigger] dirs[i]),
        (forall|i: int| 0 <= i < dirs.len() ==> #[trigger] dirs[i] == other) ==> base == other,
{
    assert(holds_all(other, dirs));
    assert(other.len() <= base.len());
    let dir = dirs[0];
    assert(base.is_prefix_of(dir) && other.is_prefix_of(dir));
    assert(base.take(other.len() as int) =~= dir.take(other.len() as int));
    assert(other =~= dir.take(other.len() as int));
    if forall|i: int| 0 <= i < dirs.len() ==> #[trigger] dirs[i] == other {
        assert(dir == other);
        assert(base =~= other);
    }
}

/// The folders that count for the common one are those of all paths that have one,
/// in their order.
pub proof fn every_folder_counts(paths: Seq<Seq<Part>>, dir: Seq<Part>, name: Seq<u8>)
    ensures
        parents(paths.push(dir.push(Part::Normal(name)))) == parents(paths).push(dir),
        parents(paths.push(seq![Part::Root])) == parents(paths),
        parents(seq![]) == Seq::<Seq<Part>>::empty(),
{
    let path = dir.push(Part::Normal(name));
    assert(paths.push(path).drop_last() =~= paths);
    assert(paths.push(seq![Part::Root]).drop_last() =~= paths);
    assert(path.drop_last() =~= dir);
}

} // verus!
