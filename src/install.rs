use vstd::prelude::*;

use crate::livery_map::LiveryMap;
use crate::text::{lower_of, lowercase};

verus! {

broadcast use vstd::std_specs::vec::axiom_vec_decreases_to_view;

/// The name, in lower case, of the folders that hold liveries.
pub const LIVERIES_DIR: &'static str = "liveries";

/// An entry of an installation tree: a file, or a directory with the
/// entries under it.
#[derive(Debug)]
pub struct Entry {
    /// The entry's base name.
    pub name: String,
    pub is_dir: bool,
    /// The entries of a directory that were read.
    pub children: Vec<Entry>,
}

/// A directory whose name is `liveries`, in any case, holds liveries.
pub open spec fn is_marker(name: Seq<char>) -> bool {
    lower_of(name) == LIVERIES_DIR@
}

/// The pair of a vehicle type directory and one of its livery directories,
/// lower-cased.
pub open spec fn livery_pair(vehicle: Entry, livery: Entry) -> (Seq<char>, Seq<char>) {
    (lower_of(vehicle.name@), lower_of(livery.name@))
}

/// The pairs that the first `m` entries of the vehicle type directory
/// `vehicle` give: one for each directory among them.
pub open spec fn vehicle_liveries_upto(vehicle: Entry, m: int) -> Set<(Seq<char>, Seq<char>)> {
    Set::new(
        |p: (Seq<char>, Seq<char>)|
            exists|j: int|
                0 <= j < m && j < vehicle.children@.len() && (#[trigger] vehicle.children@[j]).is_dir
                    && p == livery_pair(vehicle, vehicle.children@[j]),
    )
}

/// The pairs that one entry of a livery folder gives: none for a file, one
/// for each directory under a directory.
pub open spec fn vehicle_liveries(vehicle: Entry) -> Set<(Seq<char>, Seq<char>)> {
    if vehicle.is_dir {
        vehicle_liveries_upto(vehicle, vehicle.children@.len() as int)
    } else {
        Set::empty()
    }
}

/// The pairs that the entries of a livery folder give.
pub open spec fn folder_liveries(entries: Seq<Entry>) -> Set<(Seq<char>, Seq<char>)>
    decreases entries.len(),
{
    if entries.len() == 0 {
        Set::empty()
    } else {
        folder_liveries(entries.drop_last()).union(vehicle_liveries(entries.last()))
    }
}

/// The pairs that a search of `e` finds: nothing in a file, the liveries of a
/// livery folder, and otherwise what is found under each entry.
pub open spec fn stock_in(e: Entry) -> Set<(Seq<char>, Seq<char>)>
    decreases e, 1nat,
{
    if !e.is_dir {
        Set::empty()
    } else if is_marker(e.name@) {
        folder_liveries(e.children@)
    } else {
        stock_in_all(e.children@)
    }
}

/// The pairs found under each of `entries`.
pub open spec fn stock_in_all(entries: Seq<Entry>) -> Set<(Seq<char>, Seq<char>)>
    decreases entries, 0nat,
{
    if entries.len() == 0 {
        Set::empty()
    } else {
        stock_in_all(entries.drop_last()).union(stock_in(entries.last()))
    }
}

/// Whether a directory named `name` is a livery folder.
pub fn is_livery_root(name: &str) -> (r: bool)
    ensures
        r == is_marker(name@),
{
    let lowered = lowercase(name);
    let marker = String::from_str(LIVERIES_DIR);
    lowered == marker
}

/// Records in `liveries` one pair for each directory under the vehicle type
/// directory `vehicle`.
fn harvest_vehicle(vehicle: &Entry, liveries: &mut LiveryMap)
    requires
        old(liveries).wf(),
        vehicle.is_dir,
    ensures
        final(liveries).wf(),
        final(liveries).pairs() == old(liveries).pairs().union(vehicle_liveries(*vehicle)),
{
    let name = lowercase(vehicle.name.as_str());
    let mut j: usize = 0;
    assert(vehicle_liveries_upto(*vehicle, 0) =~= Set::empty());
    assert(old(liveries).pairs().union(Set::empty()) =~= old(liveries).pairs());
    while j < vehicle.children.len()
        invariant
            j <= vehicle.children@.len(),
            name@ == lower_of(vehicle.name@),
            liveries.wf(),
            liveries.pairs() == old(liveries).pairs().union(vehicle_liveries_upto(*vehicle, j as int)),
        decreases vehicle.children@.len() - j,
    {
        let l = &vehicle.children[j];
        if l.is_dir {
            let livery = lowercase(l.name.as_str());
            liveries.insert(name.clone(), livery);
            assert(vehicle_liveries_upto(*vehicle, j + 1) =~= vehicle_liveries_upto(*vehicle, j as int).insert(
                livery_pair(*vehicle, vehicle.children@[j as int]),
            ));
        } else {
            assert(vehicle_liveries_upto(*vehicle, j + 1) =~= vehicle_liveries_upto(*vehicle, j as int));
        }
        assert(liveries.pairs() =~= old(liveries).pairs().union(vehicle_liveries_upto(*vehicle, j + 1)));
        j = j + 1;
    }
}

/// Searches the installation tree under `dir` for livery folders and
/// records what they hold in `liveries`.
///
/// A file gives nothing. A directory named `liveries`, in any case, is a
/// livery folder: each directory in it is a vehicle type, and each directory
/// in one of those is a livery of that vehicle type; nothing deeper is
/// searched. Any other directory is searched through each of its entries.
pub fn dir_livery_search(dir: &Entry, liveries: &mut LiveryMap)
    requires
        old(liveries).wf(),
    ensures
        final(liveries).wf(),
        final(liveries).pairs() == old(liveries).pairs().union(stock_in(*dir)),
    decreases dir,
{
    if !dir.is_dir {
        assert(old(liveries).pairs().union(Set::empty()) =~= old(liveries).pairs());
        return;
    }
    if is_livery_root(dir.name.as_str()) {
        let mut i: usize = 0;
        assert(dir.children@.subrange(0, 0) =~= Seq::<Entry>::empty());
        assert(old(liveries).pairs().union(Set::empty()) =~= old(liveries).pairs());
        while i < dir.children.len()
            invariant
                i <= dir.children@.len(),
                liveries.wf(),
                liveries.pairs() == old(liveries).pairs().union(
                    folder_liveries(dir.children@.subrange(0, i as int)),
                ),
            decreases dir.children@.len() - i,
        {
            let ghost next = dir.children@.subrange(0, i + 1);
            assert(next.drop_last() =~= dir.children@.subrange(0, i as int));
            assert(next.last() == dir.children@[i as int]);
            let v = &dir.children[i];
            if v.is_dir {
                harvest_vehicle(v, liveries);
            } else {
                assert(vehicle_liveries(*v) =~= Set::empty());
            }
            assert(liveries.pairs() =~= old(liveries).pairs().union(folder_liveries(next)));
            i = i + 1;
        }
        assert(dir.children@.subrange(0, dir.children@.len() as int) =~= dir.children@);
    } else {
        let mut i: usize = 0;
        assert(dir.children@.subrange(0, 0) =~= Seq::<Entry>::empty());
        assert(old(liveries).pairs().union(Set::empty()) =~= old(liveries).pairs());
        while i < dir.children.len()
            invariant
                i <= dir.children@.len(),
                liveries.wf(),
                liveries.pairs() == old(liveries).pairs().union(
                    stock_in_all(dir.children@.subrange(0, i as int)),
                ),
            decreases dir.children@.len() - i,
        {
            let ghost next = dir.children@.subrange(0, i + 1);
            assert(next.drop_last() =~= dir.children@.subrange(0, i as int));
            assert(next.last() == dir.children@[i as int]);
            assert(decreases_to!(dir.children@ => dir.children@[i as int]));
            dir_livery_search(&dir.children[i], liveries);
            assert(liveries.pairs() =~= old(liveries).pairs().union(stock_in_all(next)));
            i = i + 1;
        }
        assert(dir.children@.subrange(0, dir.children@.len() as int) =~= dir.children@);
    }
}

/// The liveries installed under `root`, per vehicle type, as found by
/// [`dir_livery_search`].
pub fn find_stock_liveries(root: &Entry) -> (r: LiveryMap)
    ensures
        r.wf(),
        r.pairs() == stock_in(*root),
{
    let mut liveries = LiveryMap::new();
    dir_livery_search(root, &mut liveries);
    assert(liveries.pairs() =~= stock_in(*root));
    liveries
}

/// A pair is found under `entries` exactly when it is found under one of
/// them.
pub proof fn lemma_stock_in_all(entries: Seq<Entry>, p: (Seq<char>, Seq<char>))
    ensures
        stock_in_all(entries).contains(p) <==> exists|i: int|
            0 <= i < entries.len() && stock_in(#[trigger] entries[i]).contains(p),
    decreases entries.len(),
{
    if entries.len() > 0 {
        let rest = entries.drop_last();
        lemma_stock_in_all(rest, p);
        if exists|i: int| 0 <= i < rest.len() && stock_in(#[trigger] rest[i]).contains(p) {
            let i = choose|i: int| 0 <= i < rest.len() && stock_in(#[trigger] rest[i]).contains(p);
            assert(entries[i] == rest[i]);
        }
        if exists|i: int| 0 <= i < entries.len() && stock_in(#[trigger] entries[i]).contains(p) {
            let i = choose|i: int| 0 <= i < entries.len() && stock_in(#[trigger] entries[i]).contains(p);
            if i < rest.len() {
                assert(entries[i] == rest[i]);
            }
        }
    }
}

/// A pair is found in a livery folder exactly when one of its entries gives
/// it.
pub proof fn lemma_folder_liveries(entries: Seq<Entry>, p: (Seq<char>, Seq<char>))
    ensures
        folder_liveries(entries).contains(p) <==> exists|i: int|
            0 <= i < entries.len() && vehicle_liveries(#[trigger] entries[i]).contains(p),
    decreases entries.len(),
{
    if entries.len() > 0 {
        let rest = entries.drop_last();
        lemma_folder_liveries(rest, p);
        if exists|i: int| 0 <= i < rest.len() && vehicle_liveries(#[trigger] rest[i]).contains(p) {
            let i = choose|i: int| 0 <= i < rest.len() && vehicle_liveries(#[trigger] rest[i]).contains(p);
            assert(entries[i] == rest[i]);
        }
        if exists|i: int| 0 <= i < entries.len() && vehicle_liveries(#[trigger] entries[i]).contains(p) {
            let i = choose|i: int| 0 <= i < entries.len() && vehicle_liveries(#[trigger] entries[i]).contains(p);
            if i < rest.len() {
                assert(entries[i] == rest[i]);
            }
        }
    }
}

/// The entry that `path` leads to from `e`: each index picks an entry of a
/// directory that is not a livery folder.
pub open spec fn reach_dir(e: Entry, path: Seq<int>) -> Option<Entry>
    decreases path.len(),
{
    if path.len() == 0 {
        Some(e)
    } else if e.is_dir && !is_marker(e.name@) && 0 <= path[0] < e.children@.len() {
        reach_dir(e.children@[path[0]], path.drop_first())
    } else {
        None
    }
}

/// The pair that a livery folder reached by `path` gives for the livery
/// directory `j` of its vehicle type directory `i`, if those are
/// directories.
pub open spec fn livery_at(root: Entry, path: Seq<int>, i: int, j: int) -> Option<(Seq<char>, Seq<char>)> {
    match reach_dir(root, path) {
        Some(d) => if d.is_dir && is_marker(d.name@) && 0 <= i < d.children@.len()
            && d.children@[i].is_dir && 0 <= j < d.children@[i].children@.len()
            && d.children@[i].children@[j].is_dir {
            Some(livery_pair(d.children@[i], d.children@[i].children@[j]))
        } else {
            None
        },
        None => None,
    }
}

proof fn lemma_livery_at_found(root: Entry, path: Seq<int>, i: int, j: int)
    requires
        livery_at(root, path, i, j) is Some,
    ensures
        stock_in(root).contains(livery_at(root, path, i, j)->Some_0),
    decreases path.len(),
{
    let p = livery_at(root, path, i, j)->Some_0;
    if path.len() == 0 {
        let v = root.children@[i];
        assert(vehicle_liveries_upto(v, v.children@.len() as int).contains(p));
        lemma_folder_liveries(root.children@, p);
    } else {
        let c = root.children@[path[0]];
        assert(livery_at(c, path.drop_first(), i, j) == livery_at(root, path, i, j));
        lemma_livery_at_found(c, path.drop_first(), i, j);
        lemma_stock_in_all(root.children@, p);
    }
}

proof fn lemma_found_livery_at(root: Entry, p: (Seq<char>, Seq<char>))
    requires
        stock_in(root).contains(p),
    ensures
        exists|path: Seq<int>, i: int, j: int| livery_at(root, path, i, j) == Some(p),
    decreases root,
{
    if is_marker(root.name@) {
        lemma_folder_liveries(root.children@, p);
        let i = choose|i: int| 0 <= i < root.children@.len() && vehicle_liveries(#[trigger] root.children@[i]).contains(p);
        let v = root.children@[i];
        let j = choose|j: int|
            0 <= j < v.children@.len() && (#[trigger] v.children@[j]).is_dir
                && p == livery_pair(v, v.children@[j]);
        assert(livery_at(root, Seq::empty(), i, j) == Some(p));
    } else {
        lemma_stock_in_all(root.children@, p);
        let k = choose|k: int| 0 <= k < root.children@.len() && stock_in(#[trigger] root.children@[k]).contains(p);
        let c = root.children@[k];
        assert(decreases_to!(root.children => root.children@));
        lemma_found_livery_at(c, p);
        let (path, i, j) = choose|path: Seq<int>, i: int, j: int| livery_at(c, path, i, j) == Some(p);
        let full = seq![k].add(path);
        assert(full.drop_first() =~= path);
        assert(livery_at(root, full, i, j) == Some(p));
    }
}

/// Only livery folders give pairs: a pair is found under `root` exactly when
/// a path through directories that are not livery folders reaches a livery
/// folder in which a vehicle type directory holds a livery directory, and
/// the pair is those two names, lower-cased.
pub proof fn law_only_livery_folders(root: Entry, p: (Seq<char>, Seq<char>))
    ensures
        stock_in(root).contains(p) <==> exists|path: Seq<int>, i: int, j: int|
            livery_at(root, path, i, j) == Some(p),
{
    if stock_in(root).contains(p) {
        lemma_found_livery_at(root, p);
    }
    if exists|path: Seq<int>, i: int, j: int| livery_at(root, path, i, j) == Some(p) {
        let (path, i, j) = choose|path: Seq<int>, i: int, j: int| livery_at(root, path, i, j) == Some(p);
        lemma_livery_at_found(root, path, i, j);
    }
}

/// Scanning one installation tree twice gives the same map.
pub proof fn law_scan_repeatable(root: Entry, first: LiveryMap, second: LiveryMap)
    requires
        first.pairs() == stock_in(root),
        second.pairs() == stock_in(root),
    ensures
        first@ == second@,
{
}

/// Vehicle type and livery directories are keyed by the lower-case form of
/// their names: directories whose names have the same lower-case form give
/// the same pair.
pub proof fn law_case_folded_dirs(v1: Entry, l1: Entry, v2: Entry, l2: Entry)
    requires
        lower_of(v1.name@) == lower_of(v2.name@),
        lower_of(l1.name@) == lower_of(l2.name@),
    ensures
        livery_pair(v1, l1) == livery_pair(v2, l2),
{
}

} // verus!
