use vstd::prelude::*;

use crate::livery_map::{index_of, strings_of, LiveryMap};

verus! {

/// A requirement of a mission that an installation does not meet.
#[derive(Clone, Debug, PartialEq, Eq)]
pub enum Unmet {
    /// The installation has no livery at all for this vehicle type.
    NoStock(String),
    /// The installation has liveries for this vehicle type (first), but not
    /// this one (second).
    MissingLivery(String, String),
}

/// An unmet requirement, over the characters of its identifiers.
pub enum Gap {
    NoStock(Seq<char>),
    MissingLivery(Seq<char>, Seq<char>),
}

impl View for Unmet {
    type V = Gap;

    open spec fn view(&self) -> Gap {
        match self {
            Unmet::NoStock(v) => Gap::NoStock(v@),
            Unmet::MissingLivery(v, l) => Gap::MissingLivery(v@, l@),
        }
    }
}

/// The line that reports a gap.
pub open spec fn message_of(g: Gap) -> Seq<char> {
    match g {
        Gap::NoStock(v) => NO_STOCK_PREFIX@ + v,
        Gap::MissingLivery(v, l) => MISSING_PREFIX@ + l + FOR_SEPARATOR@ + v,
    }
}

/// The start of the report of a vehicle type with no livery installed.
pub const NO_STOCK_PREFIX: &'static str = "no stock liveries for ";

/// The start of the report of a livery id that is not installed.
pub const MISSING_PREFIX: &'static str = "no stock livery ";

/// What separates a livery id from its vehicle type in a report.
pub const FOR_SEPARATOR: &'static str = " for ";

impl Unmet {
    /// The line that reports this requirement.
    pub fn message(&self) -> (r: String)
        ensures
            r@ == message_of(self@),
    {
        match self {
            Unmet::NoStock(v) => {
                let mut m = String::from_str(NO_STOCK_PREFIX);
                m.append(v.as_str());
                m
            },
            Unmet::MissingLivery(v, l) => {
                let mut m = String::from_str(MISSING_PREFIX);
                m.append(l.as_str());
                m.append(FOR_SEPARATOR);
                m.append(v.as_str());
                m
            },
        }
    }
}

/// The vehicle type that a gap concerns.
pub open spec fn vehicle_of(g: Gap) -> Seq<char> {
    match g {
        Gap::NoStock(v) => v,
        Gap::MissingLivery(v, _) => v,
    }
}

/// Every requirement of `needed` that `stock` does not meet: a vehicle type
/// that `needed` names and `stock` does not, and a livery id that `needed`
/// asks for under a vehicle type that `stock` has without it.
pub open spec fn gaps(
    needed: Map<Seq<char>, Set<Seq<char>>>,
    stock: Map<Seq<char>, Set<Seq<char>>>,
) -> Set<Gap> {
    Set::new(
        |g: Gap|
            match g {
                Gap::NoStock(v) => needed.contains_key(v) && !stock.contains_key(v),
                Gap::MissingLivery(v, l) => needed.contains_key(v) && needed[v].contains(l)
                    && stock.contains_key(v) && !stock[v].contains(l),
            },
    )
}

/// The gaps that a list of unmet requirements names.
pub open spec fn gaps_of(u: Seq<Unmet>) -> Set<Gap> {
    Set::new(|g: Gap| exists|k: int| 0 <= k < u.len() && u[k]@ == g)
}

/// No gap is named twice.
pub open spec fn no_repeats(u: Seq<Unmet>) -> bool {
    forall|a: int, b: int| 0 <= a < b < u.len() ==> #[trigger] u[a]@ != #[trigger] u[b]@
}

/// The gaps that concern the vehicle types of the first `i` rows of `needed`.
pub open spec fn gaps_before(needed: LiveryMap, stock: LiveryMap, i: int) -> Set<Gap> {
    gaps(needed@, stock@).filter(
        |g: Gap| exists|k: int| 0 <= k < i && #[trigger] needed.rows()[k].0@ == vehicle_of(g),
    )
}

proof fn lemma_gaps_of_push(u: Seq<Unmet>, x: Unmet)
    ensures
        gaps_of(u.push(x)) == gaps_of(u).insert(x@),
{
    assert forall|g: Gap| gaps_of(u.push(x)).contains(g) == gaps_of(u).insert(x@).contains(g) by {
        if gaps_of(u).contains(g) {
            let k = choose|k: int| 0 <= k < u.len() && u[k]@ == g;
            assert(u.push(x)[k] == u[k]);
        }
        if gaps_of(u.push(x)).contains(g) {
            let k = choose|k: int| 0 <= k < u.len() + 1 && u.push(x)[k]@ == g;
            if k < u.len() {
                assert(u.push(x)[k] == u[k]);
            }
        }
        assert(u.push(x)[u.len() as int] == x);
    }
    assert(gaps_of(u.push(x)) =~= gaps_of(u).insert(x@));
}

proof fn lemma_gaps_of_append(u: Seq<Unmet>, w: Seq<Unmet>)
    ensures
        gaps_of(u + w) == gaps_of(u).union(gaps_of(w)),
{
    assert forall|g: Gap| gaps_of(u + w).contains(g) == gaps_of(u).union(gaps_of(w)).contains(g) by {
        if gaps_of(u).contains(g) {
            let k = choose|k: int| 0 <= k < u.len() && u[k]@ == g;
            assert((u + w)[k] == u[k]);
        }
        if gaps_of(w).contains(g) {
            let k = choose|k: int| 0 <= k < w.len() && w[k]@ == g;
            assert((u + w)[u.len() + k] == w[k]);
        }
        if gaps_of(u + w).contains(g) {
            let k = choose|k: int| 0 <= k < u.len() + w.len() && (u + w)[k]@ == g;
            if k < u.len() {
                assert((u + w)[k] == u[k]);
            } else {
                assert((u + w)[k] == w[k - u.len()]);
            }
        }
    }
    assert(gaps_of(u + w) =~= gaps_of(u).union(gaps_of(w)));
}

/// The livery ids of `wanted` that `have` lacks, as gaps of `vehicle`,
/// taking the first `j` of `wanted` only.
pub open spec fn missing_upto(vehicle: Seq<char>, wanted: Seq<String>, have: Seq<String>, j: int) -> Set<Gap> {
    Set::new(
        |g: Gap|
            exists|k: int|
                0 <= k < j && !strings_of(have).contains(#[trigger] wanted[k]@) && g == Gap::MissingLivery(
                    vehicle,
                    wanted[k]@,
                ),
    )
}

/// Appends to `unmet` a gap for each livery id of `wanted` that `have`
/// lacks.
fn missing_liveries(vehicle: &String, wanted: &Vec<String>, have: &Vec<String>, unmet: &mut Vec<Unmet>)
    requires
        forall|a: int, b: int| 0 <= a < b < wanted@.len() ==> #[trigger] wanted@[a]@ != #[trigger] wanted@[b]@,
    ensures
        final(unmet)@.len() >= old(unmet)@.len(),
        final(unmet)@.subrange(0, old(unmet)@.len() as int) == old(unmet)@,
        gaps_of(final(unmet)@.subrange(old(unmet)@.len() as int, final(unmet)@.len() as int))
            == missing_upto(vehicle@, wanted@, have@, wanted@.len() as int),
        no_repeats(final(unmet)@.subrange(old(unmet)@.len() as int, final(unmet)@.len() as int)),
{
    let ghost n0 = unmet@.len() as int;
    let mut j: usize = 0;
    assert(gaps_of(unmet@.subrange(n0, n0)) =~= missing_upto(vehicle@, wanted@, have@, 0));
    while j < wanted.len()
        invariant
            forall|a: int, b: int| 0 <= a < b < wanted@.len() ==> #[trigger] wanted@[a]@ != #[trigger] wanted@[b]@,
            j <= wanted@.len(),
            n0 <= unmet@.len(),
            unmet@.subrange(0, n0) == old(unmet)@,
            n0 == old(unmet)@.len(),
            gaps_of(unmet@.subrange(n0, unmet@.len() as int)) == missing_upto(vehicle@, wanted@, have@, j as int),
            no_repeats(unmet@.subrange(n0, unmet@.len() as int)),
        decreases wanted@.len() - j,
    {
        let ghost before = unmet@;
        let ghost added = unmet@.subrange(n0, unmet@.len() as int);
        match index_of(have, &wanted[j]) {
            Some(_) => {
                assert(strings_of(have@).contains(wanted@[j as int]@));
                assert(missing_upto(vehicle@, wanted@, have@, j + 1) =~= missing_upto(vehicle@, wanted@, have@, j as int));
            },
            None => {
                let x = Unmet::MissingLivery(vehicle.clone(), wanted[j].clone());
                let ghost xv = x@;
                unmet.push(x);
                proof {
                    assert(!strings_of(have@).contains(wanted@[j as int]@));
                    assert(unmet@.subrange(0, n0) =~= before.subrange(0, n0));
                    assert(unmet@.subrange(n0, unmet@.len() as int) =~= added.push(x));
                    lemma_gaps_of_push(added, x);
                    assert(missing_upto(vehicle@, wanted@, have@, j + 1) =~= missing_upto(vehicle@, wanted@, have@, j as int).insert(xv));
                    assert forall|a: int, b: int| 0 <= a < b < added.len() + 1 implies #[trigger] added.push(x)[a]@ != #[trigger] added.push(x)[b]@ by {
                        assert(added.push(x)[a] == added[a]);
                        if b < added.len() {
                            assert(added.push(x)[b] == added[b]);
                        } else {
                            assert(gaps_of(added).contains(added[a]@));
                            let k = choose|k: int|
                                0 <= k < j && !strings_of(have@).contains(#[trigger] wanted@[k]@) && added[a]@ == Gap::MissingLivery(vehicle@, wanted@[k]@);
                            assert(wanted@[k]@ != wanted@[j as int]@);
                        }
                    }
                }
            },
        }
        j = j + 1;
    }
}

/// Checks that `stock` meets every requirement of `needed`.
///
/// A vehicle type of `needed` that `stock` lacks is reported once; under a
/// vehicle type that `stock` has, each livery id of `needed` that `stock`
/// lacks is reported. The report follows the order of `needed`'s rows.
pub fn run(needed: &LiveryMap, stock: &LiveryMap) -> (r: Result<(), Vec<Unmet>>)
    requires
        needed.wf(),
        stock.wf(),
    ensures
        r is Ok <==> gaps(needed@, stock@).is_empty(),
        r is Err ==> gaps_of(r->Err_0@) == gaps(needed@, stock@) && no_repeats(r->Err_0@),
{
    let rows = needed.as_rows();
    let mut unmet: Vec<Unmet> = Vec::new();
    let mut i: usize = 0;
    assert(gaps_of(unmet@) =~= gaps_before(*needed, *stock, 0));
    while i < rows.len()
        invariant
            rows@ == needed.rows(),
            needed.wf(),
            stock.wf(),
            i <= rows@.len(),
            gaps_of(unmet@) == gaps_before(*needed, *stock, i as int),
            no_repeats(unmet@),
            forall|a: int|
                0 <= a < unmet@.len() ==> exists|k: int|
                    0 <= k < i && #[trigger] needed.rows()[k].0@ == vehicle_of(#[trigger] unmet@[a]@),
        decreases rows@.len() - i,
    {
        let vehicle = &rows[i].0;
        let wanted = &rows[i].1;
        let ghost v = vehicle@;
        let ghost before = unmet@;
        proof {
            needed.lemma_row_view(i as int);
            assert(needed@[v] =~= strings_of(wanted@));
        }
        match stock.get(vehicle) {
            None => {
                unmet.push(Unmet::NoStock(vehicle.clone()));
                proof {
                    lemma_gaps_of_push(before, unmet@.last());
                    assert(unmet@ == before.push(unmet@.last()));
                    assert forall|g: Gap|
                        gaps_before(*needed, *stock, i + 1).contains(g)
                            == gaps_before(*needed, *stock, i as int).insert(Gap::NoStock(v)).contains(g) by {
                        if exists|k: int| 0 <= k < i + 1 && #[trigger] needed.rows()[k].0@ == vehicle_of(g) {
                            let k = choose|k: int| 0 <= k < i + 1 && #[trigger] needed.rows()[k].0@ == vehicle_of(g);
                            if k == i {
                                assert(vehicle_of(g) == v);
                            }
                        }
                        if g == Gap::NoStock(v) {
                            assert(needed.rows()[i as int].0@ == vehicle_of(g));
                        }
                    }
                    assert(gaps_before(*needed, *stock, i + 1) =~= gaps_before(*needed, *stock, i as int).insert(Gap::NoStock(v)));
                    assert forall|a: int, b: int| 0 <= a < b < unmet@.len() implies #[trigger] unmet@[a]@ != #[trigger] unmet@[b]@ by {
                        if b == before.len() {
                            assert(unmet@[a] == before[a]);
                            let k = choose|k: int| 0 <= k < i && #[trigger] needed.rows()[k].0@ == vehicle_of(before[a]@);
                            assert(needed.rows()[k].0@ != needed.rows()[i as int].0@);
                        } else {
                            assert(unmet@[a] == before[a]);
                            assert(unmet@[b] == before[b]);
                        }
                    }
                    assert forall|a: int| 0 <= a < unmet@.len() implies exists|k: int|
                        0 <= k < i + 1 && #[trigger] needed.rows()[k].0@ == vehicle_of(#[trigger] unmet@[a]@) by {
                        if a < before.len() {
                            assert(unmet@[a] == before[a]);
                            let k = choose|k: int| 0 <= k < i && #[trigger] needed.rows()[k].0@ == vehicle_of(before[a]@);
                            assert(needed.rows()[k].0@ == vehicle_of(unmet@[a]@));
                        } else {
                            assert(needed.rows()[i as int].0@ == vehicle_of(unmet@[a]@));
                        }
                    }
                }
            },
            Some(have) => {
                let ghost added_set = missing_upto(v, wanted@, have@, wanted@.len() as int);
                missing_liveries(vehicle, wanted, have, &mut unmet);
                proof {
                    let added = unmet@.subrange(before.len() as int, unmet@.len() as int);
                    assert(unmet@ =~= before + added);
                    lemma_gaps_of_append(before, added);
                    assert(stock@[v] == strings_of(have@));
                    assert(stock@.contains_key(v));
                    assert forall|g: Gap|
                        gaps_before(*needed, *stock, i + 1).contains(g)
                            == gaps_before(*needed, *stock, i as int).union(added_set).contains(g) by {
                        if exists|k: int| 0 <= k < i + 1 && #[trigger] needed.rows()[k].0@ == vehicle_of(g) {
                            let k = choose|k: int| 0 <= k < i + 1 && #[trigger] needed.rows()[k].0@ == vehicle_of(g);
                            if k == i {
                                assert(vehicle_of(g) == v);
                                if gaps(needed@, stock@).contains(g) {
                                    let l = g->MissingLivery_1;
                                    assert(strings_of(wanted@).contains(l));
                                    let k2 = choose|k2: int| 0 <= k2 < wanted@.len() && wanted@[k2]@ == l;
                                    assert(added_set.contains(g));
                                }
                            }
                        }
                        if added_set.contains(g) {
                            let k2 = choose|k2: int|
                                0 <= k2 < wanted@.len() && !strings_of(have@).contains(#[trigger] wanted@[k2]@)
                                    && g == Gap::MissingLivery(v, wanted@[k2]@);
                            assert(strings_of(wanted@).contains(wanted@[k2]@));
                            assert(needed.rows()[i as int].0@ == vehicle_of(g));
                        }
                    }
                    assert(gaps_before(*needed, *stock, i + 1) =~= gaps_before(*needed, *stock, i as int).union(added_set));
                    assert forall|a: int| 0 <= a < added.len() implies vehicle_of(#[trigger] added[a]@) == v by {
                        assert(gaps_of(added).contains(added[a]@));
                    }
                    assert forall|a: int, b: int| 0 <= a < b < unmet@.len() implies #[trigger] unmet@[a]@ != #[trigger] unmet@[b]@ by {
                        if a < before.len() {
                            assert(unmet@[a] == before[a]);
                            if b < before.len() {
                                assert(unmet@[b] == before[b]);
                            } else {
                                assert(unmet@[b] == added[b - before.len()]);
                                let k = choose|k: int| 0 <= k < i && #[trigger] needed.rows()[k].0@ == vehicle_of(before[a]@);
                                assert(needed.rows()[k].0@ != needed.rows()[i as int].0@);
                            }
                        } else {
                            assert(unmet@[a] == added[a - before.len()]);
                            assert(unmet@[b] == added[b - before.len()]);
                        }
                    }
                    assert forall|a: int| 0 <= a < unmet@.len() implies exists|k: int|
                        0 <= k < i + 1 && #[trigger] needed.rows()[k].0@ == vehicle_of(#[trigger] unmet@[a]@) by {
                        if a < before.len() {
                            assert(unmet@[a] == before[a]);
                            let k = choose|k: int| 0 <= k < i && #[trigger] needed.rows()[k].0@ == vehicle_of(before[a]@);
                            assert(needed.rows()[k].0@ == vehicle_of(unmet@[a]@));
                        } else {
                            assert(unmet@[a] == added[a - before.len()]);
                            assert(needed.rows()[i as int].0@ == vehicle_of(unmet@[a]@));
                        }
                    }
                }
            },
        }
        i = i + 1;
    }
    proof {
        assert(gaps_before(*needed, *stock, rows@.len() as int) =~= gaps(needed@, stock@)) by {
            assert forall|g: Gap| gaps(needed@, stock@).contains(g) implies exists|k: int|
                0 <= k < rows@.len() && #[trigger] needed.rows()[k].0@ == vehicle_of(g) by {
                let v = vehicle_of(g);
                assert(needed@.contains_key(v));
                let l = choose|l: Seq<char>| needed.pairs().contains((v, l));
                let (a, b) = choose|a: int, b: int|
                    0 <= a < needed.rows().len() && 0 <= b < needed.rows()[a].1@.len()
                        && #[trigger] needed.rows()[a].0@ == v && #[trigger] needed.rows()[a].1@[b]@ == l;
            }
        }
    }
    if unmet.len() == 0 {
        assert(gaps_of(unmet@) =~= Set::<Gap>::empty());
        Ok(())
    } else {
        assert(gaps_of(unmet@).contains(unmet@[0]@));
        Err(unmet)
    }
}

/// A vehicle type that `needed` names and `stock` lacks is reported once, by
/// name, as having no stock, and no livery id of it is reported on its own.
pub proof fn law_missing_vehicle_named(
    needed: Map<Seq<char>, Set<Seq<char>>>,
    stock: Map<Seq<char>, Set<Seq<char>>>,
    v: Seq<char>,
)
    ensures
        gaps(needed, stock).contains(Gap::NoStock(v)) <==> (needed.contains_key(v) && !stock.contains_key(v)),
        !stock.contains_key(v) ==> forall|l: Seq<char>|
            !(#[trigger] gaps(needed, stock).contains(Gap::MissingLivery(v, l))),
{
}

/// What is reported of a vehicle type depends only on what the two maps
/// hold for that vehicle type: the other vehicle types do not affect it.
pub proof fn law_gaps_per_vehicle(
    needed1: Map<Seq<char>, Set<Seq<char>>>,
    stock1: Map<Seq<char>, Set<Seq<char>>>,
    needed2: Map<Seq<char>, Set<Seq<char>>>,
    stock2: Map<Seq<char>, Set<Seq<char>>>,
    v: Seq<char>,
)
    requires
        needed1.contains_key(v) == needed2.contains_key(v),
        needed1.contains_key(v) ==> needed1[v] == needed2[v],
        stock1.contains_key(v) == stock2.contains_key(v),
        stock1.contains_key(v) ==> stock1[v] == stock2[v],
    ensures
        forall|g: Gap|
            vehicle_of(g) == v ==> (#[trigger] gaps(needed1, stock1).contains(g) <==> gaps(needed2, stock2).contains(g)),
{
}

} // verus!
