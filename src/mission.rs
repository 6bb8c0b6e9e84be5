use vstd::prelude::*;

use crate::livery_map::{map_of, LiveryMap};
use crate::text::{lower_of, lowercase};

verus! {

broadcast use vstd::std_specs::vec::axiom_vec_decreases_to_view;

/// The key under which a unit record names its livery.
pub const LIVERY_ID_KEY: &'static str = "livery_id";

/// The key under which a unit record names its vehicle type.
pub const TYPE_KEY: &'static str = "type";

/// The key under which the mission table holds its coalitions.
pub const COALITION_KEY: &'static str = "coalition";

/// A value of the decoded mission script.
#[derive(Debug, PartialEq)]
pub enum Value {
    Str(String),
    Int(i64),
    /// A table, as its key/value pairs.
    Table(Vec<(Value, Value)>),
    /// Any other kind of value (boolean, number, function, nil, ...).
    Other,
}

/// What a table holds under the string key `key`: the value of the first
/// pair whose key is that string.
pub open spec fn field(entries: Seq<(Value, Value)>, key: Seq<char>) -> Option<Value>
    decreases entries.len(),
{
    if entries.len() == 0 {
        None
    } else if entries[0].0 is Str && entries[0].0->Str_0@ == key {
        Some(entries[0].1)
    } else {
        field(entries.drop_first(), key)
    }
}

/// The string that a table holds under `key`, if it holds a string there.
pub open spec fn string_field(entries: Seq<(Value, Value)>, key: Seq<char>) -> Option<Seq<char>> {
    match field(entries, key) {
        Some(Value::Str(s)) => Some(s@),
        _ => None,
    }
}

/// A table is a unit record when it holds strings under both `livery_id`
/// and `type`.
pub open spec fn is_unit(entries: Seq<(Value, Value)>) -> bool {
    string_field(entries, LIVERY_ID_KEY@) is Some && string_field(entries, TYPE_KEY@) is Some
}

/// The (vehicle type, livery id) pair of a unit record, both lower-cased.
pub open spec fn unit_pair(entries: Seq<(Value, Value)>) -> (Seq<char>, Seq<char>) {
    (
        lower_of(string_field(entries, TYPE_KEY@)->Some_0),
        lower_of(string_field(entries, LIVERY_ID_KEY@)->Some_0),
    )
}

/// The pairs that a search of the table `entries` finds: its own pair if it
/// is a unit record, else those found in each table among its values.
pub open spec fn found_in_table(entries: Seq<(Value, Value)>) -> Set<(Seq<char>, Seq<char>)>
    decreases entries, 1nat,
{
    if is_unit(entries) {
        set![unit_pair(entries)]
    } else {
        found_in_values(entries)
    }
}

/// The pairs found in the tables among the values of `entries`.
pub open spec fn found_in_values(entries: Seq<(Value, Value)>) -> Set<(Seq<char>, Seq<char>)>
    decreases entries, 0nat,
{
    if entries.len() == 0 {
        Set::empty()
    } else {
        let last = entries.last();
        let rest = found_in_values(entries.drop_last());
        match last.1 {
            Value::Table(t) => rest.union(found_in_table(t@)),
            _ => rest,
        }
    }
}

/// The coalition table of a mission: the mission must be a table that holds
/// a table under `coalition`.
pub open spec fn coalitions(mission: Value) -> Option<Seq<(Value, Value)>> {
    match mission {
        Value::Table(m) => match field(m@, COALITION_KEY@) {
            Some(Value::Table(c)) => Some(c@),
            _ => None,
        },
        _ => None,
    }
}

/// Every coalition is named by a string (or a number, which reads as one)
/// and is a table.
pub open spec fn coalitions_well_formed(c: Seq<(Value, Value)>) -> bool {
    forall|i: int|
        0 <= i < c.len() ==> (#[trigger] c[i].0 is Str || c[i].0 is Int) && c[i].1 is Table
}

/// Why the liveries of a mission could not be read.
#[derive(Clone, Copy, Debug, PartialEq, Eq)]
pub enum MissionError {
    /// The mission is not a table, or holds no table under `coalition`.
    NoCoalitions,
    /// An entry of the coalition table is not a name paired with a table.
    MalformedCoalition,
}

/// The value that `entries` holds under the string key `key`.
fn get_field<'a>(entries: &'a Vec<(Value, Value)>, key: &String) -> (r: Option<&'a Value>)
    ensures
        match r {
            Some(v) => field(entries@, key@) == Some(*v),
            None => field(entries@, key@) is None,
        },
{
    let mut j: usize = 0;
    assert(entries@.subrange(0, entries@.len() as int) =~= entries@);
    while j < entries.len()
        invariant
            j <= entries@.len(),
            field(entries@, key@) == field(entries@.subrange(j as int, entries@.len() as int), key@),
        decreases entries@.len() - j,
    {
        let ghost rest = entries@.subrange(j as int, entries@.len() as int);
        assert(rest.drop_first() =~= entries@.subrange(j + 1, entries@.len() as int));
        assert(rest[0] == entries@[j as int]);
        if let Value::Str(s) = &entries[j].0 {
            if *s == *key {
                return Some(&entries[j].1);
            }
        }
        j = j + 1;
    }
    None
}

/// Searches the table `t` for unit records and records the (vehicle type,
/// livery id) pair of each, lower-cased, in `liveries`.
///
/// A table that holds strings under both `livery_id` and `type` is a unit
/// record and is not searched further; any other table is searched through
/// each table among its values, at any depth.
pub fn lua_livery_search(t: &Vec<(Value, Value)>, liveries: &mut LiveryMap)
    requires
        old(liveries).wf(),
    ensures
        final(liveries).wf(),
        final(liveries).pairs() == old(liveries).pairs().union(found_in_table(t@)),
    decreases t@,
{
    let livery_key = String::from_str(LIVERY_ID_KEY);
    let type_key = String::from_str(TYPE_KEY);
    let livery_id = get_field(t, &livery_key);
    let unit_type = get_field(t, &type_key);
    if let (Some(Value::Str(id)), Some(Value::Str(ut))) = (livery_id, unit_type) {
        let id = lowercase(id.as_str());
        let ut = lowercase(ut.as_str());
        liveries.insert(ut, id);
        assert(liveries.pairs() =~= old(liveries).pairs().union(found_in_table(t@)));
    } else {
        assert(!is_unit(t@));
        let mut i: usize = 0;
        while i < t.len()
            invariant
                i <= t@.len(),
                liveries.wf(),
                liveries.pairs() == old(liveries).pairs().union(
                    found_in_values(t@.subrange(0, i as int)),
                ),
            decreases t@.len() - i,
        {
            let ghost before = liveries.pairs();
            let ghost next = t@.subrange(0, i + 1);
            assert(next.drop_last() =~= t@.subrange(0, i as int));
            assert(next.last() == t@[i as int]);
            if let Value::Table(inner) = &t[i].1 {
                assert(decreases_to!(t@ => t@[i as int]));
                lua_livery_search(inner, liveries);
                assert(liveries.pairs() =~= old(liveries).pairs().union(found_in_values(next)));
            } else {
                assert(found_in_values(next) == found_in_values(t@.subrange(0, i as int)));
            }
            i = i + 1;
        }
        assert(t@.subrange(0, t@.len() as int) =~= t@);
    }
}

/// Collects the liveries that the units of a mission require, per vehicle
/// type.
///
/// `mission` is the decoded `mission` table. Each coalition in its
/// `coalition` table is searched as by [`lua_livery_search`].
pub fn parse_mission_liveries(mission: &Value) -> (r: Result<LiveryMap, MissionError>)
    ensures
        match coalitions(*mission) {
            None => r == Err::<LiveryMap, MissionError>(MissionError::NoCoalitions),
            Some(c) => if coalitions_well_formed(c) {
                match r {
                    Ok(m) => m.wf() && m.pairs() == found_in_values(c),
                    Err(_) => false,
                }
            } else {
                r == Err::<LiveryMap, MissionError>(MissionError::MalformedCoalition)
            },
        },
{
    let coalition = match mission {
        Value::Table(m) => {
            let key = String::from_str(COALITION_KEY);
            match get_field(m, &key) {
                Some(Value::Table(c)) => c,
                _ => return Err(MissionError::NoCoalitions),
            }
        },
        _ => return Err(MissionError::NoCoalitions),
    };
    assert(coalitions(*mission) == Some(coalition@));
    let mut k: usize = 0;
    while k < coalition.len()
        invariant
            k <= coalition@.len(),
            coalitions(*mission) == Some(coalition@),
            forall|i: int| 0 <= i < k ==> (#[trigger] coalition@[i].0 is Str || coalition@[i].0 is Int) && coalition@[i].1 is Table,
        decreases coalition@.len() - k,
    {
        let well_formed = match (&coalition[k].0, &coalition[k].1) {
            (Value::Str(_), Value::Table(_)) => true,
            (Value::Int(_), Value::Table(_)) => true,
            _ => false,
        };
        if !well_formed {
            assert(!((coalition@[k as int].0 is Str || coalition@[k as int].0 is Int)
                && coalition@[k as int].1 is Table));
            return Err(MissionError::MalformedCoalition);
        }
        k = k + 1;
    }
    let mut liveries = LiveryMap::new();
    let mut i: usize = 0;
    while i < coalition.len()
        invariant
            i <= coalition@.len(),
            coalitions(*mission) == Some(coalition@),
            coalitions_well_formed(coalition@),
            liveries.wf(),
            liveries.pairs() == found_in_values(coalition@.subrange(0, i as int)),
        decreases coalition@.len() - i,
    {
        let ghost next = coalition@.subrange(0, i + 1);
        assert(next.drop_last() =~= coalition@.subrange(0, i as int));
        assert(next.last() == coalition@[i as int]);
        let ghost name = coalition@[i as int].0;
        assert(coalition@[i as int].1 is Table);
        if let Value::Table(t) = &coalition[i].1 {
            lua_livery_search(t, &mut liveries);
        }
        assert(liveries.pairs() =~= found_in_values(next));
        i = i + 1;
    }
    assert(coalition@.subrange(0, coalition@.len() as int) =~= coalition@);
    Ok(liveries)
}

/// The table that `path` leads to from the values of `entries`: its first
/// index picks a value of `entries`, which must be a table, and the rest of
/// the path is followed from there by [`reach`].
pub open spec fn reach_values(entries: Seq<(Value, Value)>, path: Seq<int>) -> Option<Seq<(Value, Value)>>
    decreases path.len(), 0nat,
{
    if path.len() == 0 {
        None
    } else {
        let i = path[0];
        if 0 <= i < entries.len() {
            match entries[i].1 {
                Value::Table(t) => reach(t@, path.drop_first()),
                _ => None,
            }
        } else {
            None
        }
    }
}

/// The table that `path` leads to from the table `t`, passing only through
/// tables that are not unit records.
pub open spec fn reach(t: Seq<(Value, Value)>, path: Seq<int>) -> Option<Seq<(Value, Value)>>
    decreases path.len(), 1nat,
{
    if path.len() == 0 {
        Some(t)
    } else if is_unit(t) {
        None
    } else {
        reach_values(t, path)
    }
}

/// A pair is found in the values of `entries` exactly when it is found in one
/// of the tables among them, wherever that table stands.
pub proof fn lemma_found_in_values(entries: Seq<(Value, Value)>, p: (Seq<char>, Seq<char>))
    ensures
        found_in_values(entries).contains(p) <==> exists|i: int|
            0 <= i < entries.len() && (#[trigger] entries[i]).1 is Table && found_in_table(
                entries[i].1->Table_0@,
            ).contains(p),
    decreases entries.len(),
{
    if entries.len() > 0 {
        let rest = entries.drop_last();
        lemma_found_in_values(rest, p);
        if exists|i: int|
            0 <= i < rest.len() && (#[trigger] rest[i]).1 is Table && found_in_table(rest[i].1->Table_0@).contains(p) {
            let i = choose|i: int|
                0 <= i < rest.len() && (#[trigger] rest[i]).1 is Table && found_in_table(rest[i].1->Table_0@).contains(p);
            assert(entries[i] == rest[i]);
        }
        if exists|i: int|
            0 <= i < entries.len() && (#[trigger] entries[i]).1 is Table && found_in_table(entries[i].1->Table_0@).contains(p) {
            let i = choose|i: int|
                0 <= i < entries.len() && (#[trigger] entries[i]).1 is Table && found_in_table(entries[i].1->Table_0@).contains(p);
            if i < rest.len() {
                assert(entries[i] == rest[i]);
            }
        }
    }
}

/// A table is searched as a unit record exactly when it holds strings under
/// both `livery_id` and `type`: a unit record gives its own pair and nothing
/// else, any other table gives what the tables among its values give, and a
/// table without tables among its values gives a pair exactly when it is a
/// unit record.
pub proof fn law_unit_record(entries: Seq<(Value, Value)>)
    ensures
        is_unit(entries) ==> found_in_table(entries) == set![unit_pair(entries)],
        !is_unit(entries) ==> found_in_table(entries) == found_in_values(entries),
        (forall|i: int| 0 <= i < entries.len() ==> !((#[trigger] entries[i]).1 is Table)) ==> (
        found_in_table(entries).is_empty() <==> !is_unit(entries)),
{
    if forall|i: int| 0 <= i < entries.len() ==> !((#[trigger] entries[i]).1 is Table) {
        if is_unit(entries) {
            assert(found_in_table(entries).contains(unit_pair(entries)));
        } else {
            assert forall|p: (Seq<char>, Seq<char>)| !found_in_table(entries).contains(p) by {
                lemma_found_in_values(entries, p);
            }
            assert(found_in_table(entries) =~= Set::empty());
        }
    }
}

/// Every unit record that a path reaches from the values of `entries`,
/// through tables that are not unit records, gives its pair to the search.
pub proof fn law_reachable_unit_found(entries: Seq<(Value, Value)>, path: Seq<int>)
    requires
        reach_values(entries, path) is Some,
        is_unit(reach_values(entries, path)->Some_0),
    ensures
        found_in_values(entries).contains(unit_pair(reach_values(entries, path)->Some_0)),
    decreases path.len(),
{
    let u = reach_values(entries, path)->Some_0;
    let i = path[0];
    let t = entries[i].1->Table_0@;
    let rest = path.drop_first();
    if rest.len() == 0 {
        assert(found_in_table(t).contains(unit_pair(u)));
    } else {
        law_reachable_unit_found(t, rest);
        assert(found_in_table(t).contains(unit_pair(u)));
    }
    lemma_found_in_values(entries, unit_pair(u));
}

/// Every unit record that a path reaches from a mission's coalitions appears
/// in the map of required liveries, under its lower-cased vehicle type and
/// with its lower-cased livery id.
pub proof fn law_every_unit_required(mission: Value, path: Seq<int>)
    requires
        coalitions(mission) is Some,
        reach_values(coalitions(mission)->Some_0, path) is Some,
        is_unit(reach_values(coalitions(mission)->Some_0, path)->Some_0),
    ensures
        ({
            let u = reach_values(coalitions(mission)->Some_0, path)->Some_0;
            let m = map_of(found_in_values(coalitions(mission)->Some_0));
            m.contains_key(unit_pair(u).0) && m[unit_pair(u).0].contains(unit_pair(u).1)
        }),
{
    law_reachable_unit_found(coalitions(mission)->Some_0, path);
}

/// The order of a table's pairs does not matter: two tables with the same
/// pairs give the same pairs to the search.
pub proof fn law_order_irrelevant(a: Seq<(Value, Value)>, b: Seq<(Value, Value)>)
    requires
        forall|i: int| 0 <= i < a.len() ==> exists|j: int| 0 <= j < b.len() && b[j] == #[trigger] a[i],
        forall|j: int| 0 <= j < b.len() ==> exists|i: int| 0 <= i < a.len() && a[i] == #[trigger] b[j],
    ensures
        found_in_values(a) == found_in_values(b),
{
    assert forall|p: (Seq<char>, Seq<char>)| found_in_values(a).contains(p) == found_in_values(b).contains(p) by {
        lemma_found_in_values(a, p);
        lemma_found_in_values(b, p);
        if found_in_values(a).contains(p) {
            let i = choose|i: int|
                0 <= i < a.len() && (#[trigger] a[i]).1 is Table && found_in_table(a[i].1->Table_0@).contains(p);
            let j = choose|j: int| 0 <= j < b.len() && b[j] == #[trigger] a[i];
            assert(b[j].1 is Table);
        }
        if found_in_values(b).contains(p) {
            let j = choose|j: int|
                0 <= j < b.len() && (#[trigger] b[j]).1 is Table && found_in_table(b[j].1->Table_0@).contains(p);
            let i = choose|i: int| 0 <= i < a.len() && a[i] == #[trigger] b[j];
            assert(a[i].1 is Table);
        }
    }
    assert(found_in_values(a) =~= found_in_values(b));
}

/// Reading the liveries of one mission twice gives the same map.
pub proof fn law_extraction_repeatable(mission: Value, first: LiveryMap, second: LiveryMap)
    requires
        coalitions(mission) is Some,
        first.pairs() == found_in_values(coalitions(mission)->Some_0),
        second.pairs() == found_in_values(coalitions(mission)->Some_0),
    ensures
        first@ == second@,
{
}

/// Vehicle types and livery ids are keyed by their lower-case form: two unit
/// records whose fields have the same lower-case form give the same pair.
pub proof fn law_case_folded_keys(a: Seq<(Value, Value)>, b: Seq<(Value, Value)>)
    requires
        is_unit(a),
        is_unit(b),
        lower_of(string_field(a, TYPE_KEY@)->Some_0) == lower_of(string_field(b, TYPE_KEY@)->Some_0),
        lower_of(string_field(a, LIVERY_ID_KEY@)->Some_0) == lower_of(
            string_field(b, LIVERY_ID_KEY@)->Some_0,
        ),
    ensures
        found_in_table(a) == found_in_table(b),
{
}

} // verus!
