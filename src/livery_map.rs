use vstd::prelude::*;

verus! {

/// The map that a set of (vehicle type, livery id) pairs describes: a vehicle
/// type is a key exactly when at least one pair names it, and its value is
/// the set of livery ids paired with it.
pub open spec fn map_of(p: Set<(Seq<char>, Seq<char>)>) -> Map<Seq<char>, Set<Seq<char>>> {
    Map::new(
        |k: Seq<char>| exists|l: Seq<char>| p.contains((k, l)),
        |k: Seq<char>| Set::new(|l: Seq<char>| p.contains((k, l))),
    )
}

/// The strings that a sequence holds, as a set.
pub open spec fn strings_of(v: Seq<String>) -> Set<Seq<char>> {
    Set::new(|l: Seq<char>| exists|j: int| 0 <= j < v.len() && v[j]@ == l)
}

/// Livery ids per vehicle type.
///
/// Rows are kept in the order in which their vehicle type was first seen.
/// A vehicle type has a row only once a livery id was recorded for it.
#[derive(Debug)]
pub struct LiveryMap {
    entries: Vec<(String, Vec<String>)>,
}

impl LiveryMap {
    /// The rows: a vehicle type and the livery ids recorded for it.
    pub closed spec fn rows(&self) -> Seq<(String, Vec<String>)> {
        self.entries@
    }

    /// Every (vehicle type, livery id) pair that the map holds.
    pub open spec fn pairs(&self) -> Set<(Seq<char>, Seq<char>)> {
        Set::new(
            |p: (Seq<char>, Seq<char>)|
                exists|i: int, j: int|
                    0 <= i < self.rows().len() && 0 <= j < self.rows()[i].1@.len()
                        && #[trigger] self.rows()[i].0@ == p.0 && #[trigger] self.rows()[i].1@[j]@
                        == p.1,
        )
    }

    /// Vehicle types are unique, every row holds at least one livery id, and
    /// the livery ids of a row are unique.
    pub open spec fn wf(&self) -> bool {
        &&& forall|i: int, j: int|
            0 <= i < j < self.rows().len() ==> #[trigger] self.rows()[i].0@ != #[trigger] self.rows()[j].0@
        &&& forall|i: int| 0 <= i < self.rows().len() ==> #[trigger] self.rows()[i].1@.len() > 0
        &&& forall|i: int, a: int, b: int|
            0 <= i < self.rows().len() && 0 <= a < b < self.rows()[i].1@.len()
                ==> #[trigger] self.rows()[i].1@[a]@ != #[trigger] self.rows()[i].1@[b]@
    }

    /// An empty map.
    pub fn new() -> (r: LiveryMap)
        ensures
            r.wf(),
            r.pairs() == Set::<(Seq<char>, Seq<char>)>::empty(),
    {
        let r = LiveryMap { entries: Vec::new() };
        assert(r.pairs() =~= Set::<(Seq<char>, Seq<char>)>::empty());
        r
    }

    /// The rows, in the order in which their vehicle type was first seen.
    pub fn as_rows(&self) -> (r: &Vec<(String, Vec<String>)>)
        ensures
            r@ == self.rows(),
    {
        &self.entries
    }

    /// In a well-formed map, the livery ids of the row of a vehicle type are
    /// exactly that vehicle type's value in the view.
    pub proof fn lemma_row_view(&self, i: int)
        requires
            self.wf(),
            0 <= i < self.rows().len(),
        ensures
            self@.contains_key(self.rows()[i].0@),
            forall|l: Seq<char>|
                #![trigger self@[self.rows()[i].0@].contains(l)]
                self@[self.rows()[i].0@].contains(l) <==> exists|j: int|
                    0 <= j < self.rows()[i].1@.len() && self.rows()[i].1@[j]@ == l,
    {
        let v = self.rows()[i].0@;
        assert(self.pairs().contains((v, self.rows()[i].1@[0]@)));
        assert forall|l: Seq<char>|
            self@[v].contains(l) <==> exists|j: int|
                0 <= j < self.rows()[i].1@.len() && self.rows()[i].1@[j]@ == l by {
            if self@[v].contains(l) {
                assert(self.pairs().contains((v, l)));
                let (a, b) = choose|a: int, b: int|
                    0 <= a < self.rows().len() && 0 <= b < self.rows()[a].1@.len()
                        && #[trigger] self.rows()[a].0@ == v && #[trigger] self.rows()[a].1@[b]@ == l;
                if a != i {
                    if a < i {
                        assert(self.rows()[a].0@ != self.rows()[i].0@);
                    } else {
                        assert(self.rows()[i].0@ != self.rows()[a].0@);
                    }
                }
            }
            if exists|j: int| 0 <= j < self.rows()[i].1@.len() && self.rows()[i].1@[j]@ == l {
                let j = choose|j: int| 0 <= j < self.rows()[i].1@.len() && self.rows()[i].1@[j]@ == l;
                assert(self.pairs().contains((v, self.rows()[i].1@[j]@)));
            }
        }
    }

    /// The livery ids recorded for `vehicle`, if it has a row.
    pub fn get(&self, vehicle: &String) -> (r: Option<&Vec<String>>)
        requires
            self.wf(),
        ensures
            r is Some <==> self@.contains_key(vehicle@),
            r is Some ==> self@[vehicle@] == strings_of(r->Some_0@),
    {
        match self.find_row(vehicle) {
            Some(i) => {
                proof {
                    self.lemma_row_view(i as int);
                }
                let ls = &self.entries[i].1;
                assert(self@[vehicle@] =~= strings_of(ls@));
                Some(ls)
            },
            None => {
                assert forall|l: Seq<char>| !self.pairs().contains((vehicle@, l)) by {
                    if self.pairs().contains((vehicle@, l)) {
                        let (a, b) = choose|a: int, b: int|
                            0 <= a < self.rows().len() && 0 <= b < self.rows()[a].1@.len()
                                && #[trigger] self.rows()[a].0@ == vehicle@
                                && #[trigger] self.rows()[a].1@[b]@ == l;
                        assert(self.rows()[a].0@ != vehicle@);
                    }
                }
                assert(!(exists|l: Seq<char>| self.pairs().contains((vehicle@, l))));
                assert(!self@.dom().contains(vehicle@));
                None
            },
        }
    }

    /// The index of the row of `vehicle`, if there is one.
    fn find_row(&self, vehicle: &String) -> (r: Option<usize>)
        ensures
            match r {
                Some(i) => i < self.rows().len() && self.rows()[i as int].0@ == vehicle@,
                None => forall|i: int| 0 <= i < self.rows().len() ==> self.rows()[i].0@ != vehicle@,
            },
    {
        let mut i: usize = 0;
        while i < self.entries.len()
            invariant
                i <= self.entries.len(),
                forall|k: int| 0 <= k < i ==> self.entries@[k].0@ != vehicle@,
            decreases self.entries.len() - i,
        {
            if self.entries[i].0 == *vehicle {
                return Some(i);
            }
            i = i + 1;
        }
        None
    }

    /// Records `livery` for `vehicle`, creating the row of `vehicle` if it
    /// has none yet.
    pub fn insert(&mut self, vehicle: String, livery: String)
        requires
            old(self).wf(),
        ensures
            final(self).wf(),
            final(self).pairs() == old(self).pairs().insert((vehicle@, livery@)),
    {
        let ghost old_pairs = self.pairs();
        let ghost vv = vehicle@;
        let ghost lv = livery@;
        match self.find_row(&vehicle) {
            None => {
                let mut ls: Vec<String> = Vec::new();
                ls.push(livery);
                self.entries.push((vehicle, ls));
                let ghost last = self.rows().len() - 1;
                assert(self.rows()[last].0@ == vv && self.rows()[last].1@[0]@ == lv);
                assert forall|p: (Seq<char>, Seq<char>)|
                    self.pairs().contains(p) == old_pairs.insert((vv, lv)).contains(p) by {
                    if old_pairs.contains(p) {
                        let (i, j) = choose|i: int, j: int|
                            0 <= i < old(self).rows().len() && 0 <= j < old(self).rows()[i].1@.len()
                                && #[trigger] old(self).rows()[i].0@ == p.0
                                && #[trigger] old(self).rows()[i].1@[j]@ == p.1;
                        assert(self.rows()[i] == old(self).rows()[i]);
                    }
                    if self.pairs().contains(p) {
                        let (i, j) = choose|i: int, j: int|
                            0 <= i < self.rows().len() && 0 <= j < self.rows()[i].1@.len()
                                && #[trigger] self.rows()[i].0@ == p.0
                                && #[trigger] self.rows()[i].1@[j]@ == p.1;
                        if i < old(self).rows().len() {
                            assert(self.rows()[i] == old(self).rows()[i]);
                        }
                    }
                }
                assert(self.pairs() =~= old_pairs.insert((vv, lv)));
                assert forall|i: int, j: int|
                    0 <= i < j < self.rows().len() implies #[trigger] self.rows()[i].0@
                        != #[trigger] self.rows()[j].0@ by {
                    assert(self.rows()[i] == old(self).rows()[i]);
                    if j < last {
                        assert(self.rows()[j] == old(self).rows()[j]);
                    }
                }
                assert forall|i: int| 0 <= i < self.rows().len() implies #[trigger] self.rows()[i].1@.len() > 0 by {
                    if i < last {
                        assert(self.rows()[i] == old(self).rows()[i]);
                    }
                }
                assert forall|i: int, a: int, b: int|
                    0 <= i < self.rows().len() && 0 <= a < b < self.rows()[i].1@.len()
                        implies #[trigger] self.rows()[i].1@[a]@ != #[trigger] self.rows()[i].1@[b]@ by {
                    assert(self.rows()[i] == old(self).rows()[i]);
                }
            },
            Some(i) => {
                match index_of(&self.entries[i].1, &livery) {
                    Some(j) => {
                        assert(old(self).rows()[i as int].0@ == vv);
                        assert(old(self).rows()[i as int].1@[j as int]@ == lv);
                        assert(old_pairs.contains((vv, lv)));
                        assert(self.pairs() =~= old_pairs.insert((vv, lv)));
                    },
                    None => {
                        let ghost n: int = self.entries@[i as int].1@.len() as int;
                        self.entries[i].1.push(livery);
                        assert(self.rows()[i as int].0@ == vv && self.rows()[i as int].1@[n]@ == lv);
                        assert forall|p: (Seq<char>, Seq<char>)|
                            self.pairs().contains(p) == old_pairs.insert((vv, lv)).contains(p) by {
                            if old_pairs.contains(p) {
                                let (a, b) = choose|a: int, b: int|
                                    0 <= a < old(self).rows().len() && 0 <= b < old(self).rows()[a].1@.len()
                                        && #[trigger] old(self).rows()[a].0@ == p.0
                                        && #[trigger] old(self).rows()[a].1@[b]@ == p.1;
                                if a != i {
                                    assert(self.rows()[a] == old(self).rows()[a]);
                                } else {
                                    assert(self.rows()[a].1@[b] == old(self).rows()[a].1@[b]);
                                }
                            }
                            if self.pairs().contains(p) {
                                let (a, b) = choose|a: int, b: int|
                                    0 <= a < self.rows().len() && 0 <= b < self.rows()[a].1@.len()
                                        && #[trigger] self.rows()[a].0@ == p.0
                                        && #[trigger] self.rows()[a].1@[b]@ == p.1;
                                if a != i {
                                    assert(self.rows()[a] == old(self).rows()[a]);
                                } else if b < n {
                                    assert(self.rows()[a].1@[b] == old(self).rows()[a].1@[b]);
                                }
                            }
                        }
                        assert(self.pairs() =~= old_pairs.insert((vv, lv)));
                        assert forall|a: int, b: int|
                            0 <= a < b < self.rows().len() implies #[trigger] self.rows()[a].0@
                                != #[trigger] self.rows()[b].0@ by {
                            assert(self.rows()[a].0 == old(self).rows()[a].0);
                            assert(self.rows()[b].0 == old(self).rows()[b].0);
                        }
                        assert forall|a: int| 0 <= a < self.rows().len() implies #[trigger] self.rows()[a].1@.len() > 0 by {
                            if a != i {
                                assert(self.rows()[a] == old(self).rows()[a]);
                            }
                        }
                        assert forall|k: int, a: int, b: int|
                            0 <= k < self.rows().len() && 0 <= a < b < self.rows()[k].1@.len()
                                implies #[trigger] self.rows()[k].1@[a]@ != #[trigger] self.rows()[k].1@[b]@ by {
                            if k != i {
                                assert(self.rows()[k] == old(self).rows()[k]);
                            } else {
                                assert(self.rows()[k].1@[a] == old(self).rows()[k].1@[a]);
                                if b < n {
                                    assert(self.rows()[k].1@[b] == old(self).rows()[k].1@[b]);
                                }
                            }
                        }
                    },
                }
            },
        }
    }
}

/// The position of `s` in `v`, if it occurs there.
pub fn index_of(v: &Vec<String>, s: &String) -> (r: Option<usize>)
    ensures
        match r {
            Some(j) => j < v@.len() && v@[j as int]@ == s@,
            None => forall|k: int| 0 <= k < v@.len() ==> v@[k]@ != s@,
        },
{
    let mut j: usize = 0;
    while j < v.len()
        invariant
            j <= v@.len(),
            forall|k: int| 0 <= k < j ==> v@[k]@ != s@,
        decreases v@.len() - j,
    {
        if v[j] == *s {
            return Some(j);
        }
        j = j + 1;
    }
    None
}

impl View for LiveryMap {
    type V = Map<Seq<char>, Set<Seq<char>>>;

    open spec fn view(&self) -> Map<Seq<char>, Set<Seq<char>>> {
        map_of(self.pairs())
    }
}

} // verus!
