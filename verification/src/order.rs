//! Sorting by keys that are lists of numbers.

use vstd::prelude::*;
use crate::path::Component;
use crate::path::FilePath;
use crate::path::Part;
use crate::path::PathView;
use crate::path::spelled_view;

verus! {

/// The first list comes before the second: at the first place where they
/// differ its number is smaller, or it ends there.
pub open spec fn lex_less(a: Seq<u64>, b: Seq<u64>) -> bool
    decreases a.len(),
{
    if b.len() == 0 {
        false
    } else if a.len() == 0 {
        true
    } else {
        a[0] < b[0] || (a[0] == b[0] && lex_less(a.skip(1), b.skip(1)))
    }
}

proof fn lemma_lex_irreflexive(a: Seq<u64>)
    ensures
        !lex_less(a, a),
    decreases a.len(),
{
    if a.len() > 0 {
        lemma_lex_irreflexive(a.skip(1));
    }
}

proof fn lemma_lex_transitive(a: Seq<u64>, b: Seq<u64>, c: Seq<u64>)
    requires
        lex_less(a, b),
        lex_less(b, c),
    ensures
        lex_less(a, c),
    decreases a.len(),
{
    if a.len() > 0 && a[0] == b[0] && b[0] == c[0] {
        lemma_lex_transitive(a.skip(1), b.skip(1), c.skip(1));
    }
}

proof fn lemma_lex_total(a: Seq<u64>, b: Seq<u64>)
    ensures
        lex_less(a, b) || lex_less(b, a) || a == b,
    decreases a.len(),
{
    if a.len() == 0 || b.len() == 0 {
        if a.len() == 0 && b.len() == 0 {
            assert(a =~= b);
        }
    } else if a[0] == b[0] {
        lemma_lex_total(a.skip(1), b.skip(1));
        if a.skip(1) == b.skip(1) {
            assert(a =~= seq![a[0]] + a.skip(1));
            assert(b =~= seq![b[0]] + b.skip(1));
        }
    }
}

/// What the keys of a list hold.
pub open spec fn keys_view(keys: Seq<Vec<u64>>) -> Seq<Seq<u64>> {
    Seq::new(keys.len(), |i: int| keys[i]@)
}

/// The item at `i` comes before that at `j`: by its key, and where the keys are
/// the same, by its place.
pub open spec fn before(keys: Seq<Seq<u64>>, i: int, j: int) -> bool {
    lex_less(keys[i], keys[j]) || (keys[i] == keys[j] && i < j)
}

proof fn lemma_before_transitive(keys: Seq<Seq<u64>>, i: int, j: int, k: int)
    requires
        before(keys, i, j),
        before(keys, j, k),
    ensures
        before(keys, i, k),
{
    if lex_less(keys[i], keys[j]) && lex_less(keys[j], keys[k]) {
        lemma_lex_transitive(keys[i], keys[j], keys[k]);
    }
}

/// The places stand in order, each before all that follow.
pub open spec fn in_order(keys: Seq<Seq<u64>>, places: Seq<usize>) -> bool {
    forall|a: int, b: int|
        0 <= a < b < places.len() ==> before(
            keys,
            (#[trigger] places[a]) as int,
            (#[trigger] places[b]) as int,
        )
}

/// The places from `lo` to `hi`, each once, in the order of their keys; those
/// with the same key keep their order.
pub open spec fn sorts(keys: Seq<Seq<u64>>, places: Seq<usize>, lo: int, hi: int) -> bool {
    &&& places.len() == hi - lo
    &&& forall|a: int| 0 <= a < places.len() ==> lo <= (#[trigger] places[a]) < hi
    &&& forall|p: int| lo <= p < hi ==> #[trigger] holds(places, p)
    &&& in_order(keys, places)
}

/// A place occurs among the places.
pub open spec fn holds(places: Seq<usize>, p: int) -> bool {
    exists|a: int| 0 <= a < places.len() && #[trigger] places[a] == p
}

/// Whether the first list comes before the second.
pub fn less(a: &Vec<u64>, b: &Vec<u64>) -> (r: bool)
    ensures
        r == lex_less(a@, b@),
{
    let mut i: usize = 0;
    assert(a@.skip(0) =~= a@);
    assert(b@.skip(0) =~= b@);
    while i < a.len() && i < b.len()
        invariant
            i <= a@.len(),
            i <= b@.len(),
            lex_less(a@, b@) == lex_less(a@.skip(i as int), b@.skip(i as int)),
        decreases a@.len() - i,
    {
        if a[i] != b[i] {
            return a[i] < b[i];
        }
        assert(a@.skip(i as int).skip(1) =~= a@.skip(i + 1));
        assert(b@.skip(i as int).skip(1) =~= b@.skip(i + 1));
        i = i + 1;
    }
    i < b.len()
}

/// Two ordered lists of places, those of the first all smaller, made one.
fn merge(keys: &Vec<Vec<u64>>, a: &Vec<usize>, b: &Vec<usize>, lo: usize, mid: usize, hi: usize) -> (r:
    Vec<usize>)
    requires
        lo <= mid <= hi <= keys@.len(),
        sorts(keys_view(keys@), a@, lo as int, mid as int),
        sorts(keys_view(keys@), b@, mid as int, hi as int),
    ensures
        sorts(keys_view(keys@), r@, lo as int, hi as int),
{
    let ghost all = keys_view(keys@);
    let mut r: Vec<usize> = Vec::new();
    let mut i: usize = 0;
    let mut j: usize = 0;
    while i < a.len() || j < b.len()
        invariant
            lo <= mid <= hi <= keys@.len(),
            all == keys_view(keys@),
            sorts(all, a@, lo as int, mid as int),
            sorts(all, b@, mid as int, hi as int),
            i <= a@.len(),
            j <= b@.len(),
            r@.len() == i + j,
            in_order(all, r@),
            forall|k: int| 0 <= k < r@.len() ==> lo <= (#[trigger] r@[k]) < hi,
            forall|k: int| 0 <= k < i ==> holds(r@, (#[trigger] a@[k]) as int),
            forall|k: int| 0 <= k < j ==> holds(r@, (#[trigger] b@[k]) as int),
            forall|k: int, m: int|
                0 <= k < r@.len() && i <= m < a@.len() ==> before(
                    all,
                    (#[trigger] r@[k]) as int,
                    (#[trigger] a@[m]) as int,
                ),
            forall|k: int, m: int|
                0 <= k < r@.len() && j <= m < b@.len() ==> before(
                    all,
                    (#[trigger] r@[k]) as int,
                    (#[trigger] b@[m]) as int,
                ),
        decreases a@.len() - i + b@.len() - j,
    {
        let from_b: bool = if i >= a.len() {
            true
        } else if j >= b.len() {
            false
        } else {
            let first: usize = a[i];
            let second: usize = b[j];
            less(&keys[second], &keys[first])
        };
        let ghost old_r = r@;
        if from_b {
            let next: usize = b[j];
            proof {
                if i < a@.len() {
                    assert forall|m: int| i <= m < a@.len() implies before(
                        all,
                        next as int,
                        (#[trigger] a@[m]) as int,
                    ) by {
                        if m > i {
                            assert(before(all, a@[i as int] as int, a@[m] as int));
                            lemma_before_transitive(
                                all,
                                next as int,
                                a@[i as int] as int,
                                a@[m] as int,
                            );
                        }
                    }
                }
            }
            r.push(next);
            j = j + 1;
        } else {
            let next: usize = a[i];
            proof {
                if j < b@.len() {
                    lemma_lex_total(all[next as int], all[b@[j as int] as int]);
                    assert(before(all, next as int, b@[j as int] as int));
                    assert forall|m: int| j <= m < b@.len() implies before(
                        all,
                        next as int,
                        (#[trigger] b@[m]) as int,
                    ) by {
                        if m > j {
                            assert(before(all, b@[j as int] as int, b@[m] as int));
                            lemma_before_transitive(
                                all,
                                next as int,
                                b@[j as int] as int,
                                b@[m] as int,
                            );
                        }
                    }
                }
            }
            r.push(next);
            i = i + 1;
        }
        proof {
            assert forall|p: int| #[trigger] holds(old_r, p) implies holds(r@, p) by {
                let k = choose|k: int| 0 <= k < old_r.len() && #[trigger] old_r[k] == p;
                assert(r@[k] == p);
            }
            assert(r@[r@.len() - 1] == r@.last());
            assert(holds(r@, r@.last() as int));
        }
    }
    assert forall|p: int| lo <= p < hi implies #[trigger] holds(r@, p) by {
        if p < mid {
            assert(holds(a@, p));
            let k = choose|k: int| 0 <= k < a@.len() && #[trigger] a@[k] == p;
            assert(holds(r@, a@[k] as int));
        } else {
            assert(holds(b@, p));
            let k = choose|k: int| 0 <= k < b@.len() && #[trigger] b@[k] == p;
            assert(holds(r@, b@[k] as int));
        }
    }
    r
}

fn sort_between(keys: &Vec<Vec<u64>>, lo: usize, hi: usize) -> (r: Vec<usize>)
    requires
        lo <= hi <= keys@.len(),
    ensures
        sorts(keys_view(keys@), r@, lo as int, hi as int),
    decreases hi - lo,
{
    if hi - lo <= 1 {
        let mut r: Vec<usize> = Vec::new();
        if lo < hi {
            r.push(lo);
            assert(r@[0] == lo);
            assert(holds(r@, lo as int));
        }
        return r;
    }
    let mid: usize = lo + (hi - lo) / 2;
    let a: Vec<usize> = sort_between(keys, lo, mid);
    let b: Vec<usize> = sort_between(keys, mid, hi);
    merge(keys, &a, &b, lo, mid, hi)
}

/// The places of a list in the order of their keys; those with the same key
/// keep their order.
pub fn sorted_places(keys: &Vec<Vec<u64>>) -> (r: Vec<usize>)
    ensures
        sorts(keys_view(keys@), r@, 0, keys@.len() as int),
{
    sort_between(keys, 0, keys.len())
}

/// A place occurs once only.
pub proof fn sorted_places_are_distinct(keys: Seq<Seq<u64>>, places: Seq<usize>, lo: int, hi: int)
    requires
        sorts(keys, places, lo, hi),
    ensures
        places.no_duplicates(),
{
    assert forall|a: int, b: int| 0 <= a < places.len() && 0 <= b < places.len() && a != b implies places[
        a
    ] != places[b] by {
        let (x, y) = if a < b {
            (a, b)
        } else {
            (b, a)
        };
        assert(before(keys, places[x] as int, places[y] as int));
        lemma_lex_irreflexive(keys[places[x] as int]);
    }
}

// Paths ----------------------------------------------------------------------

/// What decides where a component comes: what it is, and then its name.
pub open spec fn part_key(part: Part) -> Seq<u64> {
    match part {
        Part::Prefix(b) => seq![1u64] + name_key(b),
        Part::Root => seq![2u64],
        Part::Current => seq![3u64],
        Part::Parent => seq![4u64],
        Part::Normal(b) => seq![5u64] + name_key(b),
    }
}

/// A name byte by byte, with an end that comes before every byte.
pub open spec fn name_key(name: Seq<u8>) -> Seq<u64> {
    Seq::new(name.len(), |i: int| (name[i] + 1) as u64).push(0)
}

/// What decides where a path comes: component by component.
pub open spec fn path_key(path: Seq<Part>) -> Seq<u64>
    decreases path.len(),
{
    if path.len() == 0 {
        seq![]
    } else {
        path_key(path.drop_last()) + part_key(path.last())
    }
}

fn push_name(key: &mut Vec<u64>, name: &Vec<u8>)
    ensures
        final(key)@ == old(key)@ + name_key(name@),
{
    let mut i: usize = 0;
    while i < name.len()
        invariant
            i <= name@.len(),
            key@ == old(key)@ + Seq::new(i as nat, |k: int| (name@[k] + 1) as u64),
        decreases name@.len() - i,
    {
        key.push(name[i] as u64 + 1);
        i = i + 1;
        assert(key@ =~= old(key)@ + Seq::new(i as nat, |k: int| (name@[k] + 1) as u64));
    }
    key.push(0);
    assert(key@ =~= old(key)@ + name_key(name@));
}

/// What decides where a path comes.
pub fn key_of_path(path: &FilePath) -> (r: Vec<u64>)
    ensures
        r@ == path_key(path@),
{
    let mut key: Vec<u64> = Vec::new();
    let mut i: usize = 0;
    assert(path@.take(0) =~= seq![]);
    while i < path.components.len()
        invariant
            i <= path@.len(),
            key@ == path_key(path@.take(i as int)),
        decreases path@.len() - i,
    {
        let ghost done = key@;
        assert(path@.take(i + 1).drop_last() =~= path@.take(i as int));
        match &path.components[i] {
            Component::Prefix(b) => {
                key.push(1);
                push_name(&mut key, b);
            },
            Component::Root => {
                key.push(2);
            },
            Component::Current => {
                key.push(3);
            },
            Component::Parent => {
                key.push(4);
            },
            Component::Normal(b) => {
                key.push(5);
                push_name(&mut key, b);
            },
        }
        assert(key@ =~= done + part_key(path@[i as int]));
        i = i + 1;
    }
    assert(path@.take(i as int) =~= path@);
    key
}

/// The keys of a list of paths.
pub open spec fn path_keys(paths: Seq<PathView>) -> Seq<Seq<u64>> {
    Seq::new(paths.len(), |i: int| path_key(paths[i].parts))
}

/// `after` is `before` in the order of paths.
pub open spec fn is_sorted_form(unsorted: Seq<PathView>, sorted: Seq<PathView>) -> bool {
    exists|places: Seq<usize>|
        #[trigger] sorts(path_keys(unsorted), places, 0, unsorted.len() as int) && sorted
            == Seq::new(places.len(), |i: int| unsorted[places[i] as int])
}

/// The paths in order, each written as it was.
pub fn sort_paths(paths: &Vec<FilePath>) -> (r: Vec<FilePath>)
    ensures
        is_sorted_form(spelled_view(paths@), spelled_view(r@)),
{
    let mut keys: Vec<Vec<u64>> = Vec::new();
    let mut i: usize = 0;
    while i < paths.len()
        invariant
            i <= paths@.len(),
            keys@.len() == i,
            forall|k: int| 0 <= k < i ==> (#[trigger] keys@[k])@ == path_key(paths@[k]@),
        decreases paths@.len() - i,
    {
        keys.push(key_of_path(&paths[i]));
        i = i + 1;
    }
    assert(keys_view(keys@) =~= path_keys(spelled_view(paths@)));
    let places: Vec<usize> = sorted_places(&keys);
    let mut r: Vec<FilePath> = Vec::new();
    let mut i: usize = 0;
    while i < places.len()
        invariant
            i <= places@.len(),
            sorts(keys_view(keys@), places@, 0, paths@.len() as int),
            r@.len() == i,
            forall|k: int| 0 <= k < i ==> (#[trigger] r@[k]).spelled() == paths@[places@[k] as int].spelled(),
        decreases places@.len() - i,
    {
        r.push(paths[places[i]].clone());
        i = i + 1;
    }
    assert(spelled_view(r@) =~= Seq::new(
        places@.len(),
        |i: int| spelled_view(paths@)[places@[i] as int],
    ));
    r
}

/// In the sorted form no path comes after one that follows it.
pub proof fn sorted_form_is_ordered(unsorted: Seq<PathView>, sorted: Seq<PathView>, i: int, j: int)
    requires
        is_sorted_form(unsorted, sorted),
        0 <= i < j < sorted.len(),
    ensures
        !lex_less(path_key(sorted[j].parts), path_key(sorted[i].parts)),
{
    let places = choose|places: Seq<usize>|
        #[trigger] sorts(path_keys(unsorted), places, 0, unsorted.len() as int) && sorted
            == Seq::new(places.len(), |i: int| unsorted[places[i] as int]);
    assert(before(path_keys(unsorted), places[i] as int, places[j] as int));
    lemma_lex_irreflexive(path_key(sorted[i].parts));
    if lex_less(path_key(sorted[j].parts), path_key(sorted[i].parts)) && lex_less(
        path_key(sorted[i].parts),
        path_key(sorted[j].parts),
    ) {
        lemma_lex_transitive(path_key(sorted[i].parts), path_key(sorted[j].parts), path_key(sorted[i].parts));
    }
}

/// Files of one folder are sorted by their names, byte by byte: the smaller byte
/// first where names differ, and the shorter name first where one starts with the
/// other. A folder stands in front of what is in it.
pub proof fn names_are_sorted_byte_by_byte(dir: Seq<Part>, a: Seq<u8>, b: Seq<u8>, i: int)
    requires
        0 <= i <= a.len(),
        i <= b.len(),
        a.take(i) == b.take(i),
    ensures
        i < a.len() && i < b.len() && a[i] < b[i] ==> lex_less(
            path_key(dir.push(Part::Normal(a))),
            path_key(dir.push(Part::Normal(b))),
        ),
        i == a.len() && i < b.len() ==> lex_less(
            path_key(dir.push(Part::Normal(a))),
            path_key(dir.push(Part::Normal(b))),
        ),
        lex_less(path_key(dir), path_key(dir.push(Part::Normal(a)))),
{
    let ka = path_key(dir.push(Part::Normal(a)));
    let kb = path_key(dir.push(Part::Normal(b)));
    let kd = path_key(dir);
    assert(dir.push(Part::Normal(a)).drop_last() =~= dir);
    assert(dir.push(Part::Normal(b)).drop_last() =~= dir);
    assert(ka =~= kd + (seq![5u64] + name_key(a)));
    assert(kb =~= kd + (seq![5u64] + name_key(b)));
    let n = kd.len() as int + 1 + i;
    assert forall|k: int| 0 <= k < n implies #[trigger] ka[k] == kb[k] by {
        if k > kd.len() {
            let j = k - kd.len() - 1;
            assert(a[j] == a.take(i)[j]);
            assert(b[j] == b.take(i)[j]);
        }
    }
    if i < a.len() && i < b.len() && a[i] < b[i] {
        assert(ka[n] == (a[i] + 1) as u64);
        assert(kb[n] == (b[i] + 1) as u64);
        lemma_first_difference(ka, kb, n);
    }
    if i == a.len() && i < b.len() {
        assert(ka[n] == 0);
        assert(kb[n] == (b[i] + 1) as u64);
        lemma_first_difference(ka, kb, n);
    }
    lemma_start_is_less(kd, ka);
}

proof fn lemma_first_difference(a: Seq<u64>, b: Seq<u64>, n: int)
    requires
        0 <= n < a.len(),
        n < b.len(),
        forall|k: int| 0 <= k < n ==> #[trigger] a[k] == b[k],
        a[n] < b[n],
    ensures
        lex_less(a, b),
    decreases n,
{
    if n > 0 {
        assert(a[0] == b[0]);
        assert forall|k: int| 0 <= k < n - 1 implies #[trigger] a.skip(1)[k] == b.skip(1)[k] by {
            assert(a[k + 1] == b[k + 1]);
        }
        lemma_first_difference(a.skip(1), b.skip(1), n - 1);
    }
}

proof fn lemma_start_is_less(a: Seq<u64>, b: Seq<u64>)
    requires
        a.len() < b.len(),
        forall|k: int| 0 <= k < a.len() ==> #[trigger] a[k] == b[k],
    ensures
        lex_less(a, b),
    decreases a.len(),
{
    if a.len() > 0 {
        assert(a[0] == b[0]);
        assert forall|k: int| 0 <= k < a.skip(1).len() implies #[trigger] a.skip(1)[k] == b.skip(1)[k] by {
            assert(a[k + 1] == b[k + 1]);
        }
        lemma_start_is_less(a.skip(1), b.skip(1));
    }
}

} // verus!
