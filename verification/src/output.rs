//! Where results go: the directory, the name, and what happens where a name is
//! taken.

use vstd::prelude::*;
use vstd::string::*;
use vstd::utf8::*;
use crate::outside::fresh_identifier;
use crate::outside::is_identifier;
use crate::outside::lossy;
use crate::outside::lossy_text;
use crate::path::join_of;
use crate::path::name_of;
use crate::path::opt_path;
use crate::path::parent_of;
use crate::path::path_of;
use crate::path::plain;
use crate::path::stem_of;
use crate::path::windows_path_of;
use crate::path::child_of;
use crate::path::Component;
use crate::path::FilePath;
use crate::path::Part;
use crate::path::PathView;
use crate::settings::NameConflict;
use crate::settings::OutputDest;
use crate::settings::Settings;
use crate::settings::SettingsView;
use crate::text::chars_of;
use crate::text::contains_char;
use crate::text::decimal;
use crate::text::decimal_text;
use crate::text::join;
use crate::text::joined;
use crate::text::opt_text;
use crate::text::parse_u32;
use crate::text::text_eq;
use crate::text::texts;
use crate::text::trim;
use crate::text::trimmed;
use crate::text::unsigned_upto;
use crate::types::OverwriteChoice;

verus! {

// Names ----------------------------------------------------------------------

/// The path that a text names, as seen from a directory.
pub open spec fn named_in(dir: Seq<Part>, name: Seq<char>) -> Seq<Part> {
    join_of(dir, path_of(name))
}

/// The path that a text names, as seen from a directory.
pub fn join_name(dir: &FilePath, name: &str) -> (r: FilePath)
    ensures
        r@ == named_in(dir@, name@),
        r.is_plain(),
{
    let tail: FilePath = FilePath::parse(name);
    dir.join(&tail)
}

/// The plain name of a result.
pub open spec fn plain_name(stem: Seq<char>, ext: Seq<char>) -> Seq<char> {
    stem + "."@ + ext
}

/// The name of a result with a number.
pub open spec fn numbered_name(stem: Seq<char>, n: nat, ext: Seq<char>) -> Seq<char> {
    stem + "_"@ + decimal(n) + "."@ + ext
}

/// The name of a result with the names of folders.
pub open spec fn folder_name(stem: Seq<char>, folders: Seq<Seq<char>>, ext: Seq<char>) -> Seq<char> {
    stem + "("@ + joined(folders, "-"@) + ")."@ + ext
}

/// The names of a directory and of those above it, from the inside out.
pub open spec fn names_up(dir: Seq<Part>) -> Seq<Seq<char>>
    decreases dir.len(),
{
    let own = match name_of(dir) {
        Some(name) => seq![lossy_text(name)],
        None => seq![],
    };
    match parent_of(dir) {
        Some(up) => own + names_up(up),
        None => own,
    }
}

/// How many directories there are from one up, itself included.
pub open spec fn depth(dir: Seq<Part>) -> nat
    decreases dir.len(),
{
    match parent_of(dir) {
        Some(up) => 1 + depth(up),
        None => 1,
    }
}

/// The path with the names of up to `level` folders above the input; none where
/// no folder has a name.
pub open spec fn folder_candidate(
    input: Seq<Part>,
    dir: Seq<Part>,
    stem: Seq<char>,
    ext: Seq<char>,
    level: int,
) -> Option<Seq<Part>> {
    match parent_of(input) {
        Some(folder) => {
            let names = names_up(folder);
            let kept = if level < names.len() {
                names.take(level)
            } else {
                names
            };
            if kept.len() == 0 {
                None
            } else {
                Some(named_in(dir, folder_name(stem, kept, ext)))
            }
        },
        None => None,
    }
}

fn plain_text(stem: &str, ext: &str) -> (r: String)
    ensures
        r@ == plain_name(stem@, ext@),
{
    let mut r: String = stem.to_owned();
    r.append(".");
    r.append(ext);
    r
}

fn numbered_text(stem: &str, n: u32, ext: &str) -> (r: String)
    ensures
        r@ == numbered_name(stem@, n as nat, ext@),
{
    let mut r: String = stem.to_owned();
    r.append("_");
    let number: String = decimal_text(n as u64);
    r.append(number.as_str());
    r.append(".");
    r.append(ext);
    r
}

/// The path with the names of up to `level` folders above the input.
pub fn folder_named_candidate(
    input: &FilePath,
    output_dir: &FilePath,
    stem: &str,
    ext: &str,
    level: usize,
) -> (r: Option<FilePath>)
    ensures
        opt_path(r) == folder_candidate(input@, output_dir@, stem@, ext@, level as int),
        r is Some ==> r->0.is_plain(),
{
    let folder: FilePath = match input.parent() {
        Some(dir) => dir,
        None => {
            return None;
        },
    };
    let ghost all = names_up(folder@);
    let mut names: Vec<String> = Vec::new();
    let mut current: Option<FilePath> = Some(folder);
    assert(texts(names@) =~= seq![]);
    assert(texts(names@) + all =~= all);
    while names.len() < level && current.is_some()
        invariant
            names@.len() <= level,
            all == texts(names@) + (match current {
                Some(dir) => names_up(dir@),
                None => seq![],
            }),
        decreases
                (match current {
                    Some(dir) => dir@.len() + 1,
                    None => 0,
                }),
    {
        let dir: FilePath = match current {
            Some(dir) => dir,
            None => FilePath::empty(),
        };
        let ghost before = texts(names@);
        match dir.file_name() {
            Some(name) => {
                names.push(lossy(&name));
                assert(texts(names@) =~= before.push(lossy_text(name@)));
            },
            None => {},
        }
        current = dir.parent();
        assert(all =~= texts(names@) + (match current {
            Some(dir) => names_up(dir@),
            None => seq![],
        }));
    }
    let ghost kept = if level < all.len() {
        all.take(level as int)
    } else {
        all
    };
    assert(texts(names@) =~= kept);
    if names.len() == 0 {
        return None;
    }
    let mut text: String = stem.to_owned();
    text.append("(");
    let middle: String = join(&names, "-");
    text.append(middle.as_str());
    text.append(").");
    text.append(ext);
    assert(text@ =~= folder_name(stem@, kept, ext@));
    Some(join_name(output_dir, text.as_str()))
}

// Reservations ---------------------------------------------------------------

/// The paths that the batches of a session have taken, each with the batch that
/// took it first.
#[derive(Debug)]
pub struct Reservations {
    pub entries: Vec<(FilePath, u64)>,
}

/// The first place at or after `from` of a path among reservations; the end
/// where there is none.
pub open spec fn reserved_place(entries: Seq<(FilePath, u64)>, path: Seq<Part>, from: int) -> int
    decreases entries.len() - from,
{
    if from < 0 || from >= entries.len() {
        entries.len() as int
    } else if entries[from].0@ == path {
        from
    } else {
        reserved_place(entries, path, from + 1)
    }
}

impl View for Reservations {
    type V = Map<Seq<Part>, u64>;

    open spec fn view(&self) -> Map<Seq<Part>, u64> {
        Map::new(
            |path: Seq<Part>| reserved_place(self.entries@, path, 0) < self.entries@.len(),
            |path: Seq<Part>| self.entries@[reserved_place(self.entries@, path, 0)].1,
        )
    }
}

/// No path is reserved twice.
pub open spec fn distinct_entries(entries: Seq<(FilePath, u64)>) -> bool {
    forall|i: int, j: int|
        0 <= i < j < entries.len() ==> (#[trigger] entries[i]).0@ != (#[trigger] entries[j]).0@
}

proof fn lemma_reserved_place(entries: Seq<(FilePath, u64)>, path: Seq<Part>, from: int)
    requires
        0 <= from,
    ensures
        ({
            let i = reserved_place(entries, path, from);
            &&& i <= entries.len()
            &&& i < entries.len() ==> from <= i && entries[i].0@ == path
            &&& forall|k: int|
                from <= k < i && k < entries.len() ==> (#[trigger] entries[k]).0@ != path
        }),
    decreases entries.len() - from,
{
    if from < entries.len() && entries[from].0@ != path {
        lemma_reserved_place(entries, path, from + 1);
    }
}

/// A path that stands at a place, where no path stands twice, is found there.
proof fn lemma_reserved_at(entries: Seq<(FilePath, u64)>, i: int)
    requires
        0 <= i < entries.len(),
        distinct_entries(entries),
    ensures
        reserved_place(entries, entries[i].0@, 0) == i,
{
    let path = entries[i].0@;
    lemma_reserved_place(entries, path, 0);
    let j = reserved_place(entries, path, 0);
    if j < i {
        assert(entries[j].0@ != entries[i].0@);
    } else if j > i {
        assert(entries[i].0@ != path);
    }
}

impl Reservations {
    pub fn new() -> (r: Self)
        ensures
            r@ == Map::<Seq<Part>, u64>::empty(),
            distinct_entries(r.entries@),
    {
        let r = Reservations { entries: Vec::new() };
        assert(r@ =~= Map::<Seq<Part>, u64>::empty());
        r
    }

    /// The batch that took a path.
    pub fn owner(&self, path: &FilePath) -> (r: Option<u64>)
        ensures
            r == (if self@.contains_key(path@) {
                Some(self@[path@])
            } else {
                None
            }),
    {
        let mut i: usize = 0;
        while i < self.entries.len()
            invariant
                i <= self.entries@.len(),
                reserved_place(self.entries@, path@, 0) == reserved_place(
                    self.entries@,
                    path@,
                    i as int,
                ),
            decreases self.entries@.len() - i,
        {
            if self.entries[i].0.same(path) {
                return Some(self.entries[i].1);
            }
            i = i + 1;
        }
        None
    }

    /// Whether a path is taken.
    pub fn contains(&self, path: &FilePath) -> (r: bool)
        ensures
            r == self@.contains_key(path@),
    {
        self.owner(path).is_some()
    }

    /// Takes a path for a batch, unless it is taken.
    pub fn take_path(&mut self, path: FilePath, order: u64)
        requires
            distinct_entries(old(self).entries@),
        ensures
            distinct_entries(final(self).entries@),
            final(self)@ == (if old(self)@.contains_key(path@) {
                old(self)@
            } else {
                old(self)@.insert(path@, order)
            }),
    {
        if self.contains(&path) {
            return ;
        }
        let ghost before = self.entries@;
        let ghost new_path = path@;
        proof {
            lemma_reserved_place(before, new_path, 0);
        }
        self.entries.push((path, order));
        proof {
            let after = self.entries@;
            lemma_reserved_at(after, before.len() as int);
            assert forall|q: Seq<Part>| #![auto]
                q != new_path implies (reserved_place(after, q, 0) < after.len()) == (
            reserved_place(before, q, 0) < before.len()) && (reserved_place(before, q, 0)
                < before.len() ==> after[reserved_place(after, q, 0)].1
                == before[reserved_place(before, q, 0)].1) by {
                lemma_reserved_place(after, q, 0);
                lemma_reserved_place(before, q, 0);
                let i = reserved_place(after, q, 0);
                let j = reserved_place(before, q, 0);
                if i < after.len() {
                    if i < before.len() {
                        assert(before[i].0@ == q);
                    }
                }
                if j < before.len() {
                    assert(after[j] == before[j]);
                    lemma_reserved_at(after, j);
                }
            }
            assert(after[before.len() as int].1 == order);
            assert(self@ =~= old(self)@.insert(new_path, order));
        }
    }

    /// Gives a path back.
    pub fn release(&mut self, path: &FilePath)
        requires
            distinct_entries(old(self).entries@),
        ensures
            distinct_entries(final(self).entries@),
            final(self)@ == old(self)@.remove(path@),
    {
        let ghost before = self.entries@;
        let mut i: usize = 0;
        while i < self.entries.len() && !self.entries[i].0.same(path)
            invariant
                i <= self.entries@.len(),
                self.entries@ == before,
                reserved_place(before, path@, 0) == reserved_place(before, path@, i as int),
            decreases self.entries@.len() - i,
        {
            i = i + 1;
        }
        proof {
            lemma_reserved_place(before, path@, 0);
        }
        if i < self.entries.len() {
            self.entries.remove(i);
            proof {
                let after = self.entries@;
                assert(after =~= before.remove(i as int));
                assert forall|a: int, b: int| 0 <= a < b < after.len() implies (
                #[trigger] after[a]).0@ != (#[trigger] after[b]).0@ by {
                    let x = if a < i {
                        a
                    } else {
                        a + 1
                    };
                    let y = if b < i {
                        b
                    } else {
                        b + 1
                    };
                    assert(before[x].0@ != before[y].0@);
                }
                assert forall|q: Seq<Part>| #![auto]
                    q != path@ implies (reserved_place(after, q, 0) < after.len()) == (
                reserved_place(before, q, 0) < before.len()) && (reserved_place(before, q, 0)
                    < before.len() ==> after[reserved_place(after, q, 0)].1
                    == before[reserved_place(before, q, 0)].1) by {
                    lemma_reserved_place(after, q, 0);
                    lemma_reserved_place(before, q, 0);
                    let k = reserved_place(before, q, 0);
                    let m = reserved_place(after, q, 0);
                    if k < before.len() {
                        let place = if k < i {
                            k
                        } else {
                            k - 1
                        };
                        assert(after[place] == before[k]);
                        lemma_reserved_at(after, place);
                    }
                    if m < after.len() {
                        let place = if m < i {
                            m
                        } else {
                            m + 1
                        };
                        assert(before[place] == after[m]);
                        lemma_reserved_at(before, place);
                    }
                }
                assert(reserved_place(after, path@, 0) >= after.len()) by {
                    lemma_reserved_place(after, path@, 0);
                    let m = reserved_place(after, path@, 0);
                    if m < after.len() {
                        let place = if m < i {
                            m
                        } else {
                            m + 1
                        };
                        assert(before[place] == after[m]);
                        lemma_reserved_at(before, place);
                    }
                }
                assert(self@ =~= old(self)@.remove(path@));
            }
        } else {
            assert(self@ =~= old(self)@.remove(path@));
        }
    }
}

// Choosing a name ------------------------------------------------------------

/// What was asked for, apart from the input.
pub struct Naming {
    pub dir: Seq<Part>,
    pub stem: Seq<char>,
    pub ext: Seq<char>,
}

/// The path with a number, as seen from a directory.
pub open spec fn numbered_path(dir: Seq<Part>, stem: Seq<char>, ext: Seq<char>, n: int) -> Seq<Part> {
    named_in(dir, numbered_name(stem, n as nat, ext))
}

/// The first path with folder names, from `level` to `count` of them, that is
/// not reserved.
pub open spec fn free_folder_path(
    reserved: Map<Seq<Part>, u64>,
    input: Seq<Part>,
    to: Naming,
    level: int,
    count: int,
) -> Option<Seq<Part>>
    decreases count + 1 - level,
{
    if level > count {
        None
    } else {
        let next = free_folder_path(reserved, input, to, level + 1, count);
        match folder_candidate(input, to.dir, to.stem, to.ext, level) {
            Some(path) => if reserved.contains_key(path) {
                next
            } else {
                Some(path)
            },
            None => next,
        }
    }
}

/// The first path with a number, from `n` on, that is not reserved; none where
/// the numbers run out.
pub open spec fn free_numbered_path(reserved: Map<Seq<Part>, u64>, to: Naming, n: int) -> Option<
    Seq<Part>,
>
    decreases u32::MAX + 1 - n,
{
    if n > u32::MAX {
        None
    } else {
        let path = numbered_path(to.dir, to.stem, to.ext, n);
        if reserved.contains_key(path) {
            free_numbered_path(reserved, to, n + 1)
        } else {
            Some(path)
        }
    }
}

pub open spec fn plain_path(to: Naming) -> Seq<Part> {
    named_in(to.dir, plain_name(to.stem, to.ext))
}

/// The batch has taken the plain path itself.
pub open spec fn same_batch_collision(reserved: Map<Seq<Part>, u64>, to: Naming, order: u64) -> bool {
    reserved.contains_key(plain_path(to)) && reserved[plain_path(to)] == order
}

/// Another batch has taken the plain path.
pub open spec fn other_batch_collision(
    reserved: Map<Seq<Part>, u64>,
    to: Naming,
    order: u64,
) -> bool {
    reserved.contains_key(plain_path(to)) && reserved[plain_path(to)] != order
}

/// How many folders lie above the input.
pub open spec fn folder_count(input: Seq<Part>) -> nat {
    match parent_of(input) {
        Some(dir) => depth(dir),
        None => 0,
    }
}

/// The path to take as far as reservations go: the plain one, unless the batch
/// has taken it itself or another batch has and results are renamed; then the
/// first free one with folder names, and at last one with a number.
pub open spec fn preferred_path(
    reserved: Map<Seq<Part>, u64>,
    input: Seq<Part>,
    to: Naming,
    conflict: NameConflict,
    order: u64,
) -> Option<Seq<Part>> {
    if same_batch_collision(reserved, to, order) || (other_batch_collision(reserved, to, order)
        && conflict == NameConflict::AutoRename) {
        match free_folder_path(reserved, input, to, 1, folder_count(input) as int) {
            Some(path) => Some(path),
            None => free_numbered_path(reserved, to, 1),
        }
    } else {
        Some(plain_path(to))
    }
}

/// What a question about a file was answered, where its path is written plainly.
pub open spec fn says_path<E: Fn(&FilePath) -> bool>(f: E, path: Seq<Part>, answer: bool) -> bool {
    exists|p: FilePath| p@ == path && p.is_plain() && #[trigger] f.ensures((&p,), answer)
}

/// The name that a numbered path of a path that exists starts with.
pub open spec fn renaming_of(preferred: Seq<Part>, to: Naming) -> Naming {
    Naming {
        dir: match parent_of(preferred) {
            Some(dir) => dir,
            None => to.dir,
        },
        stem: lossy_text(
            match stem_of(preferred) {
                Some(stem) => stem,
                None => seq![],
            },
        ),
        ext: to.ext,
    }
}

/// A numbered path is reserved or was found to exist.
pub open spec fn is_taken<E: Fn(&FilePath) -> bool>(
    reserved: Map<Seq<Part>, u64>,
    exists_file: E,
    path: Seq<Part>,
) -> bool {
    reserved.contains_key(path) || says_path(exists_file, path, true)
}

/// The numbered path is the first that is neither reserved nor was found to
/// exist.
pub open spec fn is_renamed<E: Fn(&FilePath) -> bool>(
    reserved: Map<Seq<Part>, u64>,
    exists_file: E,
    to: Naming,
    chosen: Seq<Part>,
    n: int,
) -> bool {
    &&& 1 <= n <= u32::MAX
    &&& chosen == numbered_path(to.dir, to.stem, to.ext, n)
    &&& !reserved.contains_key(chosen)
    &&& says_path(exists_file, chosen, false)
    &&& forall|i: int|
        1 <= i < n ==> is_taken(
            reserved,
            exists_file,
            #[trigger] numbered_path(to.dir, to.stem, to.ext, i),
        )
}

pub open spec fn was_renamed<E: Fn(&FilePath) -> bool>(
    reserved: Map<Seq<Part>, u64>,
    exists_file: E,
    to: Naming,
    chosen: Seq<Part>,
) -> bool {
    exists|n: int| #[trigger] is_renamed(reserved, exists_file, to, chosen, n)
}

/// The numbered paths are all reserved or were found to exist.
pub open spec fn all_taken<E: Fn(&FilePath) -> bool>(
    reserved: Map<Seq<Part>, u64>,
    exists_file: E,
    to: Naming,
) -> bool {
    forall|i: int|
        1 <= i <= u32::MAX ==> is_taken(
            reserved,
            exists_file,
            #[trigger] numbered_path(to.dir, to.stem, to.ext, i),
        )
}

/// The path that is taken in the end: where results are renamed and the
/// preferred path was found to exist, the first free one with a number; else
/// the preferred path.
pub open spec fn is_chosen<E: Fn(&FilePath) -> bool>(
    reserved: Map<Seq<Part>, u64>,
    exists_file: E,
    preferred: Seq<Part>,
    to: Naming,
    conflict: NameConflict,
    chosen: Seq<Part>,
) -> bool {
    ||| (chosen == preferred && says_path(exists_file, preferred, false))
    ||| (chosen == preferred && conflict != NameConflict::AutoRename && says_path(
        exists_file,
        preferred,
        true,
    ))
    ||| (conflict == NameConflict::AutoRename && says_path(exists_file, preferred, true)
        && was_renamed(reserved, exists_file, renaming_of(preferred, to), chosen))
}

/// A path has at most one directory more above it than it has components.
proof fn lemma_depth_bound(dir: Seq<Part>)
    ensures
        1 <= depth(dir) <= dir.len() + 1,
    decreases dir.len(),
{
    if parent_of(dir) is Some {
        lemma_depth_bound(parent_of(dir)->0);
    }
}

/// How many directories there are from one up, itself included.
fn count_up(dir: &FilePath) -> (r: usize)
    requires
        dir@.len() < usize::MAX,
    ensures
        r == depth(dir@),
{
    let mut count: usize = 1;
    let mut n: usize = dir.components.len();
    assert(dir@.take(n as int) =~= dir@);
    while n > 0
        invariant
            n <= dir@.len() < usize::MAX,
            count == 1 + dir@.len() - n,
            depth(dir@) == count - 1 + depth(dir@.take(n as int)),
        decreases n,
    {
        let ghost here = dir@.take(n as int);
        assert(here.last() == dir.components@[n - 1]@);
        assert(here.drop_last() =~= dir@.take(n - 1));
        match &dir.components[n - 1] {
            Component::Prefix(_) => {
                return count;
            },
            Component::Root => {
                return count;
            },
            _ => {},
        }
        count = count + 1;
        n = n - 1;
    }
    assert(dir@.take(0) =~= seq![]);
    count
}

/// The first path with folder names that is not reserved.
fn find_folder_path(
    input: &FilePath,
    output_dir: &FilePath,
    stem: &str,
    ext: &str,
    reservations: &Reservations,
) -> (r: Option<FilePath>)
    requires
        input@.len() < usize::MAX,
    ensures
        opt_path(r) == free_folder_path(
            reservations@,
            input@,
            Naming { dir: output_dir@, stem: stem@, ext: ext@ },
            1,
            folder_count(input@) as int,
        ),
        r is Some ==> r->0.is_plain(),
{
    let ghost to = Naming { dir: output_dir@, stem: stem@, ext: ext@ };
    let count: usize = match input.parent() {
        Some(dir) => count_up(&dir),
        None => 0,
    };
    let mut level: usize = 0;
    while level < count
        invariant
            level <= count == folder_count(input@),
            to == (Naming { dir: output_dir@, stem: stem@, ext: ext@ }),
            free_folder_path(reservations@, input@, to, 1, count as int) == free_folder_path(
                reservations@,
                input@,
                to,
                level + 1,
                count as int,
            ),
        decreases count - level,
    {
        level = level + 1;
        match folder_named_candidate(input, output_dir, stem, ext, level) {
            Some(path) => {
                if !reservations.contains(&path) {
                    return Some(path);
                }
            },
            None => {},
        }
    }
    None
}

/// The first path with a number that is not reserved.
fn find_numbered_path(output_dir: &FilePath, stem: &str, ext: &str, reservations: &Reservations) -> (r:
    Option<FilePath>)
    ensures
        opt_path(r) == free_numbered_path(
            reservations@,
            Naming { dir: output_dir@, stem: stem@, ext: ext@ },
            1,
        ),
        r is Some ==> r->0.is_plain(),
{
    let ghost to = Naming { dir: output_dir@, stem: stem@, ext: ext@ };
    let mut n: u32 = 0;
    while n < u32::MAX
        invariant
            to == (Naming { dir: output_dir@, stem: stem@, ext: ext@ }),
            free_numbered_path(reservations@, to, 1) == free_numbered_path(
                reservations@,
                to,
                n + 1,
            ),
        decreases u32::MAX - n,
    {
        n = n + 1;
        let name: String = numbered_text(stem, n, ext);
        let path: FilePath = join_name(output_dir, name.as_str());
        if !reservations.contains(&path) {
            return Some(path);
        }
    }
    None
}

/// The first path with a number that is neither reserved nor found to exist.
fn find_renamed_path<E: Fn(&FilePath) -> bool>(
    dir: &FilePath,
    stem: &str,
    ext: &str,
    reservations: &Reservations,
    exists_file: &E,
) -> (r: Option<FilePath>)
    requires
        forall|p: FilePath| exists_file.requires((&p,)),
    ensures
        ({
            let to = Naming { dir: dir@, stem: stem@, ext: ext@ };
            match r {
                Some(path) => path.is_plain() && was_renamed(
                    reservations@,
                    *exists_file,
                    to,
                    path@,
                ),
                None => all_taken(reservations@, *exists_file, to),
            }
        }),
{
    let ghost to = Naming { dir: dir@, stem: stem@, ext: ext@ };
    let mut n: u32 = 0;
    while n < u32::MAX
        invariant
            to == (Naming { dir: dir@, stem: stem@, ext: ext@ }),
            forall|p: FilePath| exists_file.requires((&p,)),
            forall|i: int|
                1 <= i <= n ==> is_taken(
                    reservations@,
                    *exists_file,
                    #[trigger] numbered_path(to.dir, to.stem, to.ext, i),
                ),
        decreases u32::MAX - n,
    {
        n = n + 1;
        let name: String = numbered_text(stem, n, ext);
        let path: FilePath = join_name(dir, name.as_str());
        assert(path@ == numbered_path(to.dir, to.stem, to.ext, n as int));
        let there: bool = exists_file(&path);
        assert(says_path(*exists_file, path@, there));
        if !there && !reservations.contains(&path) {
            assert(is_renamed(reservations@, *exists_file, to, path@, n as int));
            assert(was_renamed(reservations@, *exists_file, to, path@));
            return Some(path);
        }
    }
    None
}

/// Takes a path for a result: returns it, with whether another batch of the
/// session has taken it and results are not renamed; nothing where the numbers
/// have run out.
pub fn reserve_output_path<E: Fn(&FilePath) -> bool>(
    input: &FilePath,
    output_dir: &FilePath,
    stem: &str,
    ext: &str,
    name_conflict: NameConflict,
    reservations: &mut Reservations,
    batch_order: u64,
    exists_file: &E,
) -> (r: Option<(FilePath, bool)>)
    requires
        input@.len() < usize::MAX,
        distinct_entries(old(reservations).entries@),
        forall|p: FilePath| exists_file.requires((&p,)),
    ensures
        distinct_entries(final(reservations).entries@),
        ({
            let to = Naming { dir: output_dir@, stem: stem@, ext: ext@ };
            let reserved = old(reservations)@;
            let preferred = preferred_path(reserved, input@, to, name_conflict, batch_order);
            match r {
                Some((path, collision)) => {
                    &&& path.is_plain()
                    &&& preferred is Some
                    &&& is_chosen(
                        reserved,
                        *exists_file,
                        preferred->0,
                        to,
                        name_conflict,
                        path@,
                    )
                    &&& collision == (other_batch_collision(reserved, to, batch_order)
                        && name_conflict != NameConflict::AutoRename)
                    &&& final(reservations)@ == (if reserved.contains_key(path@) {
                        reserved
                    } else {
                        reserved.insert(path@, batch_order)
                    })
                },
                None => {
                    &&& final(reservations)@ == reserved
                    &&& (preferred is None || (name_conflict == NameConflict::AutoRename && says_path(
                        *exists_file,
                        preferred->0,
                        true,
                    ) && all_taken(
                        reserved,
                        *exists_file,
                        renaming_of(preferred->0, to),
                    )))
                },
            }
        }),
{
    let ghost to = Naming { dir: output_dir@, stem: stem@, ext: ext@ };
    let name: String = plain_text(stem, ext);
    let base: FilePath = join_name(output_dir, name.as_str());
    let owner: Option<u64> = reservations.owner(&base);
    let same: bool = match owner {
        Some(order) => order == batch_order,
        None => false,
    };
    let other: bool = owner.is_some() && !same;
    let renames: bool = name_conflict == NameConflict::AutoRename;
    let preferred: FilePath = if same || (other && renames) {
        match find_folder_path(input, output_dir, stem, ext, reservations) {
            Some(path) => path,
            None => match find_numbered_path(output_dir, stem, ext, reservations) {
                Some(path) => path,
                None => {
                    return None;
                },
            },
        }
    } else {
        base
    };
    let there: bool = exists_file(&preferred);
    assert(says_path(*exists_file, preferred@, there));
    let path: FilePath = if there && renames {
        let dir: FilePath = match preferred.parent() {
            Some(dir) => dir,
            None => output_dir.clone(),
        };
        let own: Vec<u8> = match preferred.file_stem() {
            Some(own) => own,
            None => Vec::new(),
        };
        assert(own@ =~= match stem_of(preferred@) {
            Some(own) => own,
            None => seq![],
        });
        let own_stem: String = lossy(&own);
        match find_renamed_path(&dir, own_stem.as_str(), ext, reservations, exists_file) {
            Some(path) => path,
            None => {
                return None;
            },
        }
    } else {
        preferred
    };
    reservations.take_path(path.clone(), batch_order);
    Some((path, other && !renames))
}

/// A path that is not told apart as another batch's was free before.
pub proof fn a_fresh_path_was_free<E: Fn(&FilePath) -> bool>(
    reserved: Map<Seq<Part>, u64>,
    exists_file: E,
    input: Seq<Part>,
    to: Naming,
    conflict: NameConflict,
    order: u64,
    chosen: Seq<Part>,
)
    requires
        preferred_path(reserved, input, to, conflict, order) is Some,
        is_chosen(
            reserved,
            exists_file,
            preferred_path(reserved, input, to, conflict, order)->0,
            to,
            conflict,
            chosen,
        ),
        !(other_batch_collision(reserved, to, order) && conflict != NameConflict::AutoRename),
    ensures
        !reserved.contains_key(chosen),
{
    lemma_free_folder_path(reserved, input, to, 1, folder_count(input) as int);
    lemma_free_numbered_path(reserved, to, 1);
}

/// A path that is taken and not given back is not taken again, in whatever order
/// and by whatever batch paths are asked for, but where it is told apart as
/// another batch's.
pub proof fn a_taken_path_is_not_taken_again<E: Fn(&FilePath) -> bool>(
    reserved: Map<Seq<Part>, u64>,
    exists_file: E,
    input: Seq<Part>,
    to: Naming,
    conflict: NameConflict,
    order: u64,
    chosen: Seq<Part>,
    earlier: Seq<Part>,
)
    requires
        reserved.contains_key(earlier),
        preferred_path(reserved, input, to, conflict, order) is Some,
        is_chosen(
            reserved,
            exists_file,
            preferred_path(reserved, input, to, conflict, order)->0,
            to,
            conflict,
            chosen,
        ),
        !(other_batch_collision(reserved, to, order) && conflict != NameConflict::AutoRename),
    ensures
        chosen != earlier,
        reserved.insert(chosen, order).contains_key(chosen),
        reserved.insert(chosen, order).contains_key(earlier),
{
    a_fresh_path_was_free(reserved, exists_file, input, to, conflict, order, chosen);
}

/// A result that is renamed was found not to exist.
pub proof fn a_renamed_result_overwrites_nothing<E: Fn(&FilePath) -> bool>(
    reserved: Map<Seq<Part>, u64>,
    exists_file: E,
    preferred: Seq<Part>,
    to: Naming,
    chosen: Seq<Part>,
)
    requires
        is_chosen(reserved, exists_file, preferred, to, NameConflict::AutoRename, chosen),
    ensures
        says_path(exists_file, chosen, false),
{
}

proof fn lemma_free_folder_path(
    reserved: Map<Seq<Part>, u64>,
    input: Seq<Part>,
    to: Naming,
    level: int,
    count: int,
)
    ensures
        match free_folder_path(reserved, input, to, level, count) {
            Some(path) => !reserved.contains_key(path),
            None => true,
        },
    decreases count + 1 - level,
{
    if level <= count {
        lemma_free_folder_path(reserved, input, to, level + 1, count);
    }
}

proof fn lemma_free_numbered_path(reserved: Map<Seq<Part>, u64>, to: Naming, n: int)
    ensures
        match free_numbered_path(reserved, to, n) {
            Some(path) => !reserved.contains_key(path),
            None => true,
        },
    decreases u32::MAX + 1 - n,
{
    if n <= u32::MAX {
        lemma_free_numbered_path(reserved, to, n + 1);
    }
}

// The directory and the extension --------------------------------------------

/// The error for an extension that is none.
pub open spec fn not_an_extension() -> Seq<char> {
    "output format must be a single non-empty file extension"@
}

/// The error for an extension that Windows does not take.
pub open spec fn not_a_windows_extension() -> Seq<char> {
    "output format contains characters unsupported by Windows filenames"@
}

/// A text that leads out of a directory, or is empty.
pub open spec fn is_no_extension(ext: Seq<char>) -> bool {
    ext.len() == 0 || ext.contains('/') || ext.contains('\0')
}

/// A character that Windows takes in no name.
pub open spec fn is_windows_special(c: char) -> bool {
    c == '\\' || c == ':' || c == '*' || c == '?' || c == '"' || c == '<' || c == '>' || c == '|'
}

/// A text with a character that Windows takes in no name.
pub open spec fn has_windows_special(s: Seq<char>) -> bool {
    exists|i: int| 0 <= i < s.len() && is_windows_special(#[trigger] s[i])
}

fn windows_special(s: &str) -> (r: bool)
    ensures
        r == has_windows_special(s@),
{
    let chars: Vec<char> = chars_of(s);
    let mut i: usize = 0;
    while i < chars.len()
        invariant
            i <= chars@.len(),
            chars@ == s@,
            forall|k: int| 0 <= k < i ==> !is_windows_special(#[trigger] s@[k]),
        decreases chars@.len() - i,
    {
        let c: char = chars[i];
        if c == '\\' || c == ':' || c == '*' || c == '?' || c == '"' || c == '<' || c == '>' || c
            == '|' {
            assert(is_windows_special(s@[i as int]));
            return true;
        }
        i = i + 1;
    }
    false
}

/// Whether a text can be the extension of a result. Any can, in any script, but
/// for one that would lead out of the directory, and on Windows for one with
/// characters that no name there has.
pub fn validate_output_extension(ext: &str, windows: bool) -> (r: Result<(), String>)
    ensures
        match r {
            Ok(_) => !is_no_extension(ext@) && !(windows && has_windows_special(ext@)),
            Err(e) => if is_no_extension(ext@) {
                e@ == not_an_extension()
            } else {
                windows && has_windows_special(ext@) && e@ == not_a_windows_extension()
            },
        },
{
    if ext.is_empty() || contains_char(ext, '/') || contains_char(ext, '\0') {
        return Err("output format must be a single non-empty file extension".to_owned());
    }
    if windows && windows_special(ext) {
        return Err(
            "output format contains characters unsupported by Windows filenames".to_owned(),
        );
    }
    Ok(())
}

/// The extension of a format: those that share a container share it.
pub open spec fn extension_for(format: Seq<char>) -> Seq<char> {
    if format == "alac"@ || format == "aac"@ {
        "m4a"@
    } else {
        format
    }
}

/// The extension of a format.
pub fn output_extension(format: &str) -> (r: String)
    ensures
        r@ == extension_for(format@),
{
    if text_eq(format, "alac") || text_eq(format, "aac") {
        "m4a".to_owned()
    } else {
        format.to_owned()
    }
}

/// What the machine says of its directories.
pub struct KnownDirs {
    pub desktop: Option<FilePath>,
    pub downloads: Option<FilePath>,
}

/// The directory that the settings ask for, or why there is none. One that the user
/// wrote is read as the system reads paths, and written as the user did; so is one
/// that the system gives. That of the input is written plainly.
pub open spec fn chosen_dir(
    settings: SettingsView,
    input: Seq<Part>,
    dirs: KnownDirs,
    windows: bool,
) -> Result<PathView, Seq<char>> {
    match settings.output_dest {
        OutputDest::SourceFolder => match parent_of(input) {
            Some(dir) => Ok(plain(dir)),
            None => Err("no parent dir"@),
        },
        OutputDest::Desktop => match dirs.desktop {
            Some(dir) => Ok(dir.spelled()),
            None => Err("no desktop dir"@),
        },
        OutputDest::Downloads => match dirs.downloads {
            Some(dir) => Ok(dir.spelled()),
            None => Err("no downloads dir"@),
        },
        OutputDest::Custom => match settings.custom_output_path {
            Some(path) => Ok(
                PathView {
                    parts: if windows {
                        windows_path_of(path)
                    } else {
                        path_of(path)
                    },
                    text: encode_utf8(path),
                },
            ),
            None => Err("custom path not set"@),
        },
    }
}

/// The directory with the folders of the input below it, where they are kept; it
/// is then written plainly.
pub open spec fn structured_dir(
    settings: SettingsView,
    input: Seq<Part>,
    base_dir: Option<Seq<Part>>,
    dir: PathView,
) -> PathView {
    if settings.preserve_folder_structure && settings.output_dest != OutputDest::SourceFolder {
        match (base_dir, parent_of(input)) {
            (Some(base), Some(folder)) => if base.is_prefix_of(folder) {
                plain(join_of(dir.parts, folder.skip(base.len() as int)))
            } else {
                dir
            },
            _ => dir,
        }
    } else {
        dir
    }
}

/// The directory that a result goes to, or why there is none.
pub fn output_directory(
    settings: &Settings,
    input: &FilePath,
    base_dir: &Option<FilePath>,
    dirs: &KnownDirs,
    windows: bool,
) -> (r: Result<FilePath, String>)
    ensures
        match (r, chosen_dir(settings@, input@, *dirs, windows)) {
            (Ok(path), Ok(dir)) => path.spelled() == structured_dir(
                settings@,
                input@,
                opt_path(*base_dir),
                dir,
            ),
            (Err(e), Err(reason)) => e@ == reason,
            _ => false,
        },
{
    let dir: FilePath = match settings.output_dest {
        OutputDest::SourceFolder => match input.parent() {
            Some(dir) => dir,
            None => {
                return Err("no parent dir".to_owned());
            },
        },
        OutputDest::Desktop => match &dirs.desktop {
            Some(dir) => dir.clone(),
            None => {
                return Err("no desktop dir".to_owned());
            },
        },
        OutputDest::Downloads => match &dirs.downloads {
            Some(dir) => dir.clone(),
            None => {
                return Err("no downloads dir".to_owned());
            },
        },
        OutputDest::Custom => match &settings.custom_output_path {
            Some(path) => if windows {
                FilePath::parse_windows(path.as_str())
            } else {
                FilePath::parse(path.as_str())
            },
            None => {
                return Err("custom path not set".to_owned());
            },
        },
    };
    if settings.preserve_folder_structure && settings.output_dest != OutputDest::SourceFolder {
        match (base_dir, input.parent()) {
            (Some(base), Some(folder)) => match folder.strip_prefix(base) {
                Some(rest) => {
                    return Ok(dir.join(&rest));
                },
                None => {},
            },
            _ => {},
        }
    }
    Ok(dir)
}

// Asking the user ------------------------------------------------------------

/// Whether the user is asked: where another batch has taken the path, and where
/// it exists and the settings say so.
pub fn must_confirm(session_collision: bool, exists: bool, name_conflict: NameConflict) -> (r: bool)
    ensures
        r == is_asked(session_collision, exists, name_conflict),
{
    session_collision || (exists && name_conflict == NameConflict::ConfirmDialog)
}

/// The name that the user is asked about.
pub fn confirm_name(candidate: &FilePath, stem: &str, ext: &str) -> (r: String)
    ensures
        r@ == (match name_of(candidate@) {
            Some(name) => lossy_text(name),
            None => plain_name(stem@, ext@),
        }),
{
    match candidate.file_name() {
        Some(name) => lossy(&name),
        None => plain_text(stem, ext),
    }
}

/// A name for a question to the user, by which the answer is told from others.
pub fn new_dialog_id() -> (r: String)
    ensures
        is_identifier(r@),
{
    fresh_identifier()
}

/// What the frontend sends for an answer.
pub open spec fn choice_of(answer: Seq<char>) -> OverwriteChoice {
    if answer == "overwrite"@ {
        OverwriteChoice::Overwrite
    } else if answer == "rename"@ {
        OverwriteChoice::Rename
    } else if answer == "skip"@ {
        OverwriteChoice::Skip
    } else {
        OverwriteChoice::CancelAll
    }
}

/// The answer that a text stands for; any other text stops the session.
pub fn parse_choice(answer: &str) -> (r: OverwriteChoice)
    ensures
        r == choice_of(answer@),
{
    if text_eq(answer, "overwrite") {
        OverwriteChoice::Overwrite
    } else if text_eq(answer, "rename") {
        OverwriteChoice::Rename
    } else if text_eq(answer, "skip") {
        OverwriteChoice::Skip
    } else {
        OverwriteChoice::CancelAll
    }
}

/// The answer to the question that is open, if it is the one that was answered;
/// an answer that names no question is taken for the open one.
pub fn respond_overwrite(open: &Option<String>, dialog_id: &Option<String>, answer: &str) -> (r:
    Option<OverwriteChoice>)
    ensures
        r == response_of(opt_text(*open), opt_text(*dialog_id), answer@),
{
    match (open, dialog_id) {
        (None, _) => None,
        (Some(id), Some(other)) => if text_eq(id.as_str(), other.as_str()) {
            Some(parse_choice(answer))
        } else {
            None
        },
        (Some(_), None) => Some(parse_choice(answer)),
    }
}

/// What an answer leads to.
#[derive(Debug)]
pub enum Resolution {
    /// The result goes to that path.
    Use(FilePath),
    Skip,
    /// The session is to be stopped.
    Cancel,
    /// The numbers for a new name have run out.
    Exhausted,
}

/// What remains of the reservations once the user has answered: a path that was
/// taken for this result alone is given back, unless it is used.
pub open spec fn after_answer(
    reserved: Map<Seq<Part>, u64>,
    candidate: Seq<Part>,
    session_collision: bool,
    choice: OverwriteChoice,
) -> Map<Seq<Part>, u64> {
    if choice == OverwriteChoice::Overwrite || session_collision {
        reserved
    } else {
        reserved.remove(candidate)
    }
}

/// Does what the user has answered: to rename is to take a path anew, so that no
/// file is overwritten.
pub fn resolve_choice<E: Fn(&FilePath) -> bool>(
    choice: OverwriteChoice,
    session_collision: bool,
    candidate: FilePath,
    input: &FilePath,
    output_dir: &FilePath,
    stem: &str,
    ext: &str,
    reservations: &mut Reservations,
    batch_order: u64,
    exists_file: &E,
) -> (r: Resolution)
    requires
        input@.len() < usize::MAX,
        distinct_entries(old(reservations).entries@),
        forall|p: FilePath| exists_file.requires((&p,)),
    ensures
        distinct_entries(final(reservations).entries@),
        ({
            let to = Naming { dir: output_dir@, stem: stem@, ext: ext@ };
            let kept = after_answer(old(reservations)@, candidate@, session_collision, choice);
            let renames = NameConflict::AutoRename;
            let preferred = preferred_path(kept, input@, to, renames, batch_order);
            match r {
                Resolution::Use(path) => match choice {
                    OverwriteChoice::Overwrite => path.spelled() == candidate.spelled()
                        && final(reservations)@ == kept,
                    OverwriteChoice::Rename => {
                        &&& path.is_plain()
                        &&& preferred is Some
                        &&& is_chosen(kept, *exists_file, preferred->0, to, renames, path@)
                        &&& final(reservations)@ == (if kept.contains_key(path@) {
                            kept
                        } else {
                            kept.insert(path@, batch_order)
                        })
                    },
                    _ => false,
                },
                Resolution::Skip => choice == OverwriteChoice::Skip && final(reservations)@ == kept,
                Resolution::Cancel => choice == OverwriteChoice::CancelAll && final(reservations)@
                    == kept,
                Resolution::Exhausted => {
                    &&& choice == OverwriteChoice::Rename
                    &&& final(reservations)@ == kept
                    &&& preferred is None || all_taken(
                        kept,
                        *exists_file,
                        renaming_of(preferred->0, to),
                    )
                },
            }
        }),
{
    match choice {
        OverwriteChoice::Overwrite => {
            return Resolution::Use(candidate);
        },
        _ => {},
    }
    if !session_collision {
        reservations.release(&candidate);
    }
    match choice {
        OverwriteChoice::Skip => Resolution::Skip,
        OverwriteChoice::Rename => match reserve_output_path(
            input,
            output_dir,
            stem,
            ext,
            NameConflict::AutoRename,
            reservations,
            batch_order,
            exists_file,
        ) {
            Some((path, _)) => Resolution::Use(path),
            None => Resolution::Exhausted,
        },
        _ => Resolution::Cancel,
    }
}

// Keeping other instances off ------------------------------------------------

/// A result that this instance alone writes, for as long as the file at this
/// path is there.
#[derive(Debug)]
pub struct OutputPathLock {
    pub path: FilePath,
}

pub const FNV_START: u64 = 0xcbf29ce484222325;

pub const FNV_PRIME: u64 = 0x100000001b3;

/// A number made of bytes: each is mixed in by exclusive or and a product that
/// wraps around.
pub open spec fn fnv1a(bytes: Seq<u8>) -> u64
    decreases bytes.len(),
{
    if bytes.len() == 0 {
        FNV_START
    } else {
        (fnv1a(bytes.drop_last()) ^ (bytes.last() as u64)).wrapping_mul(FNV_PRIME)
    }
}

pub open spec fn hex_char(d: nat) -> char {
    if d < 10 {
        (48 + d) as char
    } else {
        (87 + d) as char
    }
}

/// The last `width` digits of `n` in base sixteen.
pub open spec fn hex_digits(n: nat, width: nat) -> Seq<char>
    decreases width,
{
    if width == 0 {
        seq![]
    } else {
        hex_digits(n / 16, (width - 1) as nat).push(hex_char(n % 16))
    }
}

/// The file that tells other instances of a result: beside it, named after its
/// name, the same in every process.
pub open spec fn lock_path_of(output: Seq<Part>) -> Seq<Part> {
    let name = lossy_text(
        match name_of(output) {
            Some(name) => name,
            None => seq![],
        },
    );
    let dir = match parent_of(output) {
        Some(dir) => dir,
        None => seq![Part::Current],
    };
    child_of(dir, ".oto-output-lock-"@ + hex_digits(fnv1a(encode_utf8(name)) as nat, 16))
}

fn hash_bytes(bytes: &Vec<u8>) -> (r: u64)
    ensures
        r == fnv1a(bytes@),
{
    let mut hash: u64 = FNV_START;
    let mut i: usize = 0;
    assert(bytes@.take(0) =~= seq![]);
    while i < bytes.len()
        invariant
            i <= bytes@.len(),
            hash == fnv1a(bytes@.take(i as int)),
        decreases bytes@.len() - i,
    {
        assert(bytes@.take(i + 1).drop_last() =~= bytes@.take(i as int));
        hash = (hash ^ (bytes[i] as u64)).wrapping_mul(FNV_PRIME);
        i = i + 1;
    }
    assert(bytes@.take(i as int) =~= bytes@);
    hash
}

fn hex_text(n: u64, width: u32) -> (r: String)
    ensures
        r@ == hex_digits(n as nat, width as nat),
    decreases width,
{
    if width == 0 {
        let r: String = String::new();
        assert(r@ =~= hex_digits(n as nat, 0));
        r
    } else {
        let mut r: String = hex_text(n / 16, width - 1);
        let d: u8 = (n % 16) as u8;
        if d < 10 {
            r.push((48 + d) as char);
        } else {
            r.push((87 + d) as char);
        }
        r
    }
}

/// The file that tells other instances of a result.
pub fn output_lock_path(output: &FilePath) -> (r: FilePath)
    ensures
        r@ == lock_path_of(output@),
        r.is_plain(),
{
    let name: Vec<u8> = match output.file_name() {
        Some(name) => name,
        None => Vec::new(),
    };
    assert(name@ =~= match name_of(output@) {
        Some(name) => name,
        None => seq![],
    });
    let text: String = lossy(&name);
    let bytes: Vec<u8> = text.as_str().as_bytes_vec();
    let mut file: String = ".oto-output-lock-".to_owned();
    let digits: String = hex_text(hash_bytes(&bytes), 16);
    file.append(digits.as_str());
    let dir: FilePath = match output.parent() {
        Some(dir) => dir,
        None => FilePath::current(),
    };
    dir.child(file.as_str())
}

/// The process that a lock file names.
pub fn lock_owner(content: &str) -> (r: Option<u32>)
    ensures
        match r {
            Some(pid) => unsigned_upto(trimmed(content@), u32::MAX as nat) == Some(pid as nat),
            None => unsigned_upto(trimmed(content@), u32::MAX as nat) is None,
        },
{
    let text: String = trim(content);
    parse_u32(text.as_str())
}

/// Whether the owner of a lock is still running: not where the lock file cannot
/// be read or names no process.
pub fn lock_owner_is_running<P: Fn(u32) -> bool>(content: Option<String>, is_running: P) -> (r: bool)
    requires
        forall|pid: u32| is_running.requires((pid,)),
    ensures
        match content {
            Some(text) => match unsigned_upto(trimmed(text@), u32::MAX as nat) {
                Some(pid) => is_running.ensures((pid as u32,), r),
                None => !r,
            },
            None => !r,
        },
{
    match content {
        Some(text) => match lock_owner(text.as_str()) {
            Some(pid) => is_running(pid),
            None => false,
        },
        None => false,
    }
}

/// What came of an attempt to create a lock file.
#[derive(Debug, Clone, Copy, PartialEq, Eq, Structural)]
pub enum LockAttempt {
    Created,
    /// The file is there, and its owner is running or not.
    Exists(bool),
    Failed,
}

/// What to do after an attempt.
#[derive(Debug, Clone, Copy, PartialEq, Eq, Structural)]
pub enum LockStep {
    /// The lock is held.
    Held,
    /// Another instance holds it.
    Busy,
    /// Nobody holds it: the file is to be removed and the attempt repeated.
    RemoveAndRetry,
    /// Nobody seemed to hold it twice: the file is to be removed, and the lock
    /// is given up.
    RemoveAndGiveUp,
    Failed,
}

/// How often a lock is tried.
pub const LOCK_ATTEMPTS: u32 = 2;

/// What to do after an attempt, where `before` were made before it.
pub fn lock_step(before: u32, attempt: LockAttempt) -> (r: LockStep)
    requires
        before < LOCK_ATTEMPTS,
    ensures
        r == after_attempt(before, attempt),
{
    match attempt {
        LockAttempt::Created => LockStep::Held,
        LockAttempt::Failed => LockStep::Failed,
        LockAttempt::Exists(running) => if running {
            LockStep::Busy
        } else if before + 1 < LOCK_ATTEMPTS {
            LockStep::RemoveAndRetry
        } else {
            LockStep::RemoveAndGiveUp
        },
    }
}

// What the place of a result is ----------------------------------------------

/// Where folders are kept and the results do not go to the folder of the input,
/// an input somewhere below the base gets the same folders below the destination,
/// be that the desktop, the downloads or a folder of the user's. Inputs in
/// different folders get different directories.
pub proof fn folders_below_the_base_are_kept(
    settings: SettingsView,
    base: Seq<Part>,
    below: Seq<Part>,
    other: Seq<Part>,
    name: Seq<u8>,
    dir: PathView,
)
    requires
        settings.preserve_folder_structure,
        settings.output_dest != OutputDest::SourceFolder,
        below.len() > 0 ==> below[0] is Normal,
        other.len() > 0 ==> other[0] is Normal,
    ensures
        ({
            let input = (base + below).push(Part::Normal(name));
            let second = (base + other).push(Part::Normal(name));
            let found = structured_dir(settings, input, Some(base), dir);
            &&& found.parts == dir.parts + below
            &&& found == plain(dir.parts + below)
            &&& below != other ==> found.parts != structured_dir(
                settings,
                second,
                Some(base),
                dir,
            ).parts
        }),
{
    let input = (base + below).push(Part::Normal(name));
    let second = (base + other).push(Part::Normal(name));
    assert(input.drop_last() =~= base + below);
    assert(second.drop_last() =~= base + other);
    assert((base + below).skip(base.len() as int) =~= below);
    assert((base + other).skip(base.len() as int) =~= other);
    assert(base.is_prefix_of(base + below));
    assert(base.is_prefix_of(base + other));
    crate::path::joining_puts_folders_behind(dir.parts, below);
    crate::path::joining_puts_folders_behind(dir.parts, other);
    assert(dir.parts + below =~= join_of(dir.parts, below));
    assert((dir.parts + below).skip(dir.parts.len() as int) =~= below);
    assert((dir.parts + other).skip(dir.parts.len() as int) =~= other);
    assert(dir.parts + other =~= join_of(dir.parts, other));
}

/// Where folders are not kept, where results go to the folder of their input, and
/// for an input that is not below the base, the directory is the destination
/// itself.
pub proof fn other_results_go_to_the_destination(
    settings: SettingsView,
    input: Seq<Part>,
    base: Option<Seq<Part>>,
    dir: PathView,
)
    requires
        !settings.preserve_folder_structure || settings.output_dest == OutputDest::SourceFolder
            || base is None || !base->0.is_prefix_of(input),
    ensures
        structured_dir(settings, input, base, dir) == dir,
{
    if let (Some(b), Some(folder)) = (base, parent_of(input)) {
        if b.is_prefix_of(folder) {
            assert(b.is_prefix_of(input)) by {
                assert(input.take(b.len() as int) =~= folder.take(b.len() as int));
            }
        }
    }
}

/// The destination is the one that the settings name: the folder that the input
/// stands in, the desktop, the downloads, or the folder that the user wrote; and
/// there is an error where that one is not known, and only there.
pub proof fn the_destination_is_the_one_named(
    settings: SettingsView,
    folder: Seq<Part>,
    name: Seq<u8>,
    dirs: KnownDirs,
    windows: bool,
)
    ensures
        ({
            let found = chosen_dir(settings, folder.push(Part::Normal(name)), dirs, windows);
            &&& settings.output_dest == OutputDest::SourceFolder ==> found == Ok::<
                PathView,
                Seq<char>,
            >(plain(folder))
            &&& settings.output_dest == OutputDest::Desktop ==> match dirs.desktop {
                Some(dir) => found matches Ok(d) && d.parts == dir@ && d.text == dir.text@,
                None => found is Err,
            }
            &&& settings.output_dest == OutputDest::Downloads ==> match dirs.downloads {
                Some(dir) => found matches Ok(d) && d.parts == dir@ && d.text == dir.text@,
                None => found is Err,
            }
            &&& settings.output_dest == OutputDest::Custom ==> match settings.custom_output_path {
                Some(path) => found matches Ok(d) && d.text == encode_utf8(path) && (!windows
                    ==> d.parts == path_of(path)),
                None => found is Err,
            }
        }),
{
    assert(folder.push(Part::Normal(name)).drop_last() =~= folder);
}

/// Every name that a result may get starts with its stem and ends with a dot and
/// its extension; a number or the names of folders stand between.
pub proof fn names_keep_stem_and_extension(
    stem: Seq<char>,
    ext: Seq<char>,
    n: nat,
    folders: Seq<Seq<char>>,
)
    ensures
        plain_name(stem, ext) == stem.push('.') + ext,
        stem.is_prefix_of(numbered_name(stem, n, ext)),
        (seq!['.'] + ext).is_suffix_of(numbered_name(stem, n, ext)),
        numbered_name(stem, n, ext).subrange(
            stem.len() as int,
            numbered_name(stem, n, ext).len() - ext.len() - 1,
        ) == seq!['_'] + decimal(n),
        stem.is_prefix_of(folder_name(stem, folders, ext)),
        (seq!['.'] + ext).is_suffix_of(folder_name(stem, folders, ext)),
        folder_name(stem, folders, ext).subrange(
            stem.len() as int,
            folder_name(stem, folders, ext).len() - ext.len() - 1,
        ) == seq!['('] + joined(folders, "-"@) + seq![')'],
{
    reveal_strlit(".");
    reveal_strlit("_");
    reveal_strlit("(");
    reveal_strlit(").");
    let numbered = numbered_name(stem, n, ext);
    let foldered = folder_name(stem, folders, ext);
    let between = joined(folders, "-"@);
    assert(plain_name(stem, ext) =~= stem.push('.') + ext);
    assert(numbered =~= stem + (seq!['_'] + decimal(n)) + (seq!['.'] + ext));
    assert(foldered =~= stem + (seq!['('] + between + seq![')']) + (seq!['.'] + ext));
    assert(numbered.take(stem.len() as int) =~= stem);
    assert(foldered.take(stem.len() as int) =~= stem);
    assert(numbered.skip(numbered.len() - ext.len() - 1) =~= seq!['.'] + ext);
    assert(foldered.skip(foldered.len() - ext.len() - 1) =~= seq!['.'] + ext);
    assert(numbered.subrange(stem.len() as int, numbered.len() - ext.len() - 1) =~= seq!['_']
        + decimal(n));
    assert(foldered.subrange(stem.len() as int, foldered.len() - ext.len() - 1) =~= seq!['(']
        + between + seq![')']);
}

/// A result gets its plain name, in its directory, wherever nothing in the
/// session has taken that and no file of that name is there. It gets it even
/// where there is such a file, unless it is to be renamed.
pub proof fn a_free_name_is_kept<E: Fn(&FilePath) -> bool>(
    reserved: Map<Seq<Part>, u64>,
    exists_file: E,
    input: Seq<Part>,
    to: Naming,
    conflict: NameConflict,
    order: u64,
    chosen: Seq<Part>,
)
    requires
        preferred_path(reserved, input, to, conflict, order) is Some,
        is_chosen(
            reserved,
            exists_file,
            preferred_path(reserved, input, to, conflict, order)->0,
            to,
            conflict,
            chosen,
        ),
        crate::path::is_one_name(to.stem.push('.') + to.ext),
    ensures
        ({
            let place = to.dir.push(Part::Normal(encode_utf8(to.stem.push('.') + to.ext)));
            &&& !reserved.contains_key(place) && (conflict != NameConflict::AutoRename
                || !says_path(exists_file, place, true)) ==> chosen == place
            &&& reserved.contains_key(place) && reserved[place] != order && conflict
                != NameConflict::AutoRename ==> chosen == place
            &&& reserved.contains_key(place) && reserved[place] == order ==> chosen != place
            &&& conflict == NameConflict::AutoRename && !says_path(exists_file, place, false)
                ==> chosen != place
        }),
{
    reveal_strlit(".");
    assert(plain_name(to.stem, to.ext) =~= to.stem.push('.') + to.ext);
    crate::path::one_name_is_put_in_a_directory(to.dir, to.stem.push('.') + to.ext);
    let place = to.dir.push(Part::Normal(encode_utf8(to.stem.push('.') + to.ext)));
    assert(plain_path(to) == place);
    if reserved.contains_key(place) && reserved[place] == order {
        a_fresh_path_was_free(reserved, exists_file, input, to, conflict, order, chosen);
    }
    if conflict == NameConflict::AutoRename {
        a_renamed_result_overwrites_nothing(
            reserved,
            exists_file,
            preferred_path(reserved, input, to, conflict, order)->0,
            to,
            chosen,
        );
    }
}

/// A result that must give way to another one of its batch is told from it by the
/// folder of its input, if that name is free.
pub proof fn the_folder_tells_results_apart(
    reserved: Map<Seq<Part>, u64>,
    up: Seq<Part>,
    folder: Seq<u8>,
    name: Seq<u8>,
    to: Naming,
    conflict: NameConflict,
    order: u64,
)
    requires
        crate::path::is_one_name(to.stem.push('.') + to.ext),
        crate::path::is_one_name(folder_name(to.stem, seq![lossy_text(folder)], to.ext)),
    ensures
        ({
            let input = up.push(Part::Normal(folder)).push(Part::Normal(name));
            let place = to.dir.push(Part::Normal(encode_utf8(to.stem.push('.') + to.ext)));
            let apart = to.dir.push(
                Part::Normal(
                    encode_utf8(
                        to.stem + seq!['('] + lossy_text(folder) + seq![')', '.'] + to.ext,
                    ),
                ),
            );
            reserved.contains_key(place) && (reserved[place] == order || conflict
                == NameConflict::AutoRename) && !reserved.contains_key(apart)
                ==> preferred_path(reserved, input, to, conflict, order) == Some(apart)
        }),
{
    reveal_strlit(".");
    reveal_strlit("(");
    reveal_strlit(").");
    let dir = up.push(Part::Normal(folder));
    let input = dir.push(Part::Normal(name));
    assert(input.drop_last() =~= dir);
    assert(dir.drop_last() =~= up);
    let names = names_up(dir);
    assert(names.len() >= 1 && names[0] == lossy_text(folder));
    assert(names.take(1) =~= seq![lossy_text(folder)]);
    if names.len() == 1 {
        assert(names =~= seq![lossy_text(folder)]);
    }
    assert(plain_name(to.stem, to.ext) =~= to.stem.push('.') + to.ext);
    crate::path::one_name_is_put_in_a_directory(to.dir, to.stem.push('.') + to.ext);
    let text = folder_name(to.stem, seq![lossy_text(folder)], to.ext);
    assert(joined(seq![lossy_text(folder)], "-"@) == lossy_text(folder));
    assert(text =~= to.stem + seq!['('] + lossy_text(folder) + seq![')', '.'] + to.ext);
    crate::path::one_name_is_put_in_a_directory(to.dir, text);
    assert(folder_candidate(input, to.dir, to.stem, to.ext, 1) == Some(named_in(to.dir, text)));
}

/// The path of a result whose name has a number behind the stem.
pub open spec fn with_number(to: Naming, k: nat) -> Seq<Part> {
    to.dir.push(
        Part::Normal(encode_utf8(to.stem + seq!['_'] + decimal(k) + seq!['.'] + to.ext)),
    )
}

/// A file of the name that a result would get leads to the first number, from one
/// on, whose name is free: nothing with a smaller number is.
pub proof fn the_first_free_number_is_taken<E: Fn(&FilePath) -> bool>(
    reserved: Map<Seq<Part>, u64>,
    exists_file: E,
    to: Naming,
    chosen: Seq<Part>,
)
    requires
        was_renamed(reserved, exists_file, to, chosen),
        forall|n: nat| crate::path::is_one_name(#[trigger] numbered_name(to.stem, n, to.ext)),
    ensures
        exists|n: nat|
            {
                &&& 1 <= n
                &&& chosen == #[trigger] with_number(to, n)
                &&& !reserved.contains_key(chosen) && says_path(exists_file, chosen, false)
                &&& forall|k: nat|
                    1 <= k < n ==> reserved.contains_key(#[trigger] with_number(to, k))
                        || says_path(exists_file, with_number(to, k), true)
            },
{
    reveal_strlit(".");
    reveal_strlit("_");
    let n = choose|n: int| #[trigger] is_renamed(reserved, exists_file, to, chosen, n);
    assert forall|k: nat|
        numbered_path(to.dir, to.stem, to.ext, k as int) == #[trigger] with_number(to, k) by {
        let text = numbered_name(to.stem, k, to.ext);
        assert(text =~= to.stem + seq!['_'] + decimal(k) + seq!['.'] + to.ext);
        crate::path::one_name_is_put_in_a_directory(to.dir, text);
    }
    assert(chosen == with_number(to, n as nat));
    assert forall|k: nat| 1 <= k < n implies reserved.contains_key(#[trigger] with_number(to, k))
        || says_path(exists_file, with_number(to, k), true) by {
        assert(is_taken(
            reserved,
            exists_file,
            numbered_path(to.dir, to.stem, to.ext, k as int),
        ));
    }
}

/// A result has the extension that players know its format by: one of its own
/// for the two formats that share a container, and the name of the format for
/// any other.
pub proof fn formats_have_their_extension(format: Seq<char>)
    ensures
        extension_for("aac"@) == "m4a"@,
        extension_for("alac"@) == "m4a"@,
        format != "aac"@ && format != "alac"@ ==> extension_for(format) == format,
{
}

/// An answer to the question means what it says; an answer that is none of the
/// three stops the session.
pub proof fn answers_mean_what_they_say(answer: Seq<char>)
    ensures
        choice_of(answer) == OverwriteChoice::Overwrite <==> answer == "overwrite"@,
        choice_of(answer) == OverwriteChoice::Rename <==> answer == "rename"@,
        choice_of(answer) == OverwriteChoice::Skip <==> answer == "skip"@,
        choice_of(answer) == OverwriteChoice::CancelAll <==> answer != "overwrite"@ && answer
            != "rename"@ && answer != "skip"@,
{
    reveal_strlit("overwrite");
    reveal_strlit("rename");
    reveal_strlit("skip");
    assert("overwrite"@.len() == 9 && "rename"@.len() == 6 && "skip"@.len() == 4);
}

/// A place that was asked about is given back, so that others may have it, unless
/// the answer keeps it or another batch had it already; no other place is.
pub proof fn an_answer_gives_back_one_place(
    reserved: Map<Seq<Part>, u64>,
    candidate: Seq<Part>,
    session_collision: bool,
    choice: OverwriteChoice,
    other: Seq<Part>,
)
    ensures
        ({
            let kept = after_answer(reserved, candidate, session_collision, choice);
            &&& kept.contains_key(candidate) <==> reserved.contains_key(candidate) && (choice
                == OverwriteChoice::Overwrite || session_collision)
            &&& other != candidate ==> kept.contains_key(other) == reserved.contains_key(other)
            &&& kept.contains_key(other) ==> kept[other] == reserved[other]
        }),
{
}

/// The lock of a result stands beside it, in the same directory, under a hidden
/// name that is made from the name of the result alone.
pub proof fn a_lock_stands_beside_its_result(dir: Seq<Part>, name: Seq<u8>, elsewhere: Seq<Part>)
    ensures
        ({
            let lock = lock_path_of(dir.push(Part::Normal(name)));
            let other = lock_path_of(elsewhere.push(Part::Normal(name)));
            &&& parent_of(lock) == Some(dir)
            &&& name_of(lock) is Some
            &&& name_of(other) == name_of(lock)
            &&& elsewhere != dir ==> other != lock
        }),
{
    let output = dir.push(Part::Normal(name));
    let second = elsewhere.push(Part::Normal(name));
    assert(output.drop_last() =~= dir);
    assert(second.drop_last() =~= elsewhere);
    let lock = lock_path_of(output);
    let other = lock_path_of(second);
    assert(lock.drop_last() =~= dir);
    assert(other.drop_last() =~= elsewhere);
}

/// An extension is refused where it would not be one name's extension: where it
/// is empty or holds a slash or a zero; on Windows also where it holds what names
/// there cannot.
pub proof fn refused_extensions_are_no_extensions(ext: Seq<char>, i: int)
    requires
        0 <= i < ext.len(),
    ensures
        is_no_extension(seq![]),
        ext[i] == '/' || ext[i] == '\0' ==> is_no_extension(ext),
        !ext.contains('/') && !ext.contains('\0') ==> !is_no_extension(ext),
        ext[i] == '\\' || ext[i] == ':' || ext[i] == '*' || ext[i] == '?' || ext[i] == '"' || ext[i]
            == '<' || ext[i] == '>' || ext[i] == '|' ==> has_windows_special(ext),
{
}

/// The user is asked about a place.
pub open spec fn is_asked(session_collision: bool, exists: bool, name_conflict: NameConflict) -> bool {
    session_collision || (exists && name_conflict == NameConflict::ConfirmDialog)
}

/// The user is asked about every place that another batch has taken, and about a
/// file that is there where the settings say so; never about a place that is free,
/// and never about a file where it is to be overwritten anyway.
pub proof fn the_user_is_asked_where_something_is_lost(exists: bool, name_conflict: NameConflict)
    ensures
        is_asked(true, exists, name_conflict),
        is_asked(false, true, NameConflict::ConfirmDialog),
        !is_asked(false, false, name_conflict),
        !is_asked(false, exists, NameConflict::ForceOverwrite),
        !is_asked(false, exists, NameConflict::AutoRename),
{
}

/// What follows an attempt at a lock, where some were made before it.
pub open spec fn after_attempt(before: u32, attempt: LockAttempt) -> LockStep {
    match attempt {
        LockAttempt::Created => LockStep::Held,
        LockAttempt::Failed => LockStep::Failed,
        LockAttempt::Exists(running) => if running {
            LockStep::Busy
        } else if before + 1 < LOCK_ATTEMPTS {
            LockStep::RemoveAndRetry
        } else {
            LockStep::RemoveAndGiveUp
        },
    }
}

/// A lock is held only by who made its file; one whose owner is running is left
/// alone, and only one whose owner is not is removed, and tried once more.
pub proof fn a_lock_in_use_is_left_alone(before: u32, attempt: LockAttempt)
    requires
        before < LOCK_ATTEMPTS,
    ensures
        after_attempt(before, attempt) == LockStep::Held <==> attempt == LockAttempt::Created,
        attempt == LockAttempt::Exists(true) ==> after_attempt(before, attempt) == LockStep::Busy,
        attempt == LockAttempt::Exists(false) ==> after_attempt(before, attempt) == (if before
            == 0 {
            LockStep::RemoveAndRetry
        } else {
            LockStep::RemoveAndGiveUp
        }),
        attempt == LockAttempt::Failed ==> after_attempt(before, attempt) == LockStep::Failed,
{
}

/// The choice that an answer makes, if a question is open and the answer is to it.
pub open spec fn response_of(open: Option<Seq<char>>, dialog_id: Option<Seq<char>>, answer: Seq<char>) -> Option<
    OverwriteChoice,
> {
    match (open, dialog_id) {
        (None, _) => None,
        (Some(id), Some(other)) => if id == other {
            Some(choice_of(answer))
        } else {
            None
        },
        (Some(_), None) => Some(choice_of(answer)),
    }
}

/// An answer counts where a question is open and it is an answer to that one, or
/// to none in particular; an answer to another question changes nothing.
pub proof fn an_answer_is_to_its_question(open: Seq<char>, other: Seq<char>, answer: Seq<char>)
    ensures
        response_of(None, Some(other), answer) is None,
        response_of(None, None, answer) is None,
        response_of(Some(open), Some(open), answer) == Some(choice_of(answer)),
        response_of(Some(open), None, answer) == Some(choice_of(answer)),
        open != other ==> response_of(Some(open), Some(other), answer) is None,
{
}

} // verus!
