use livery_check::livery_map::LiveryMap;
use livery_check::mission::{lua_livery_search, parse_mission_liveries, MissionError, Value};
use std::collections::{BTreeMap, BTreeSet};

fn s(x: &str) -> Value {
    Value::Str(x.to_string())
}

fn table(pairs: Vec<(Value, Value)>) -> Value {
    Value::Table(pairs)
}

fn unit(ty: &str, livery: &str) -> Value {
    table(vec![(s("type"), s(ty)), (s("livery_id"), s(livery)), (s("name"), s("Pilot"))])
}

fn mission(coalitions: Vec<(Value, Value)>) -> Value {
    table(vec![(s("theatre"), s("Caucasus")), (s("coalition"), table(coalitions))])
}

fn as_btree(m: &LiveryMap) -> BTreeMap<String, BTreeSet<String>> {
    let mut out = BTreeMap::new();
    for (v, ls) in m.as_rows() {
        let set: BTreeSet<String> = ls.iter().cloned().collect();
        assert_eq!(set.len(), ls.len());
        assert!(out.insert(v.clone(), set).is_none());
    }
    out
}

fn expect(pairs: &[(&str, &[&str])]) -> BTreeMap<String, BTreeSet<String>> {
    pairs
        .iter()
        .map(|(v, ls)| (v.to_string(), ls.iter().map(|l| l.to_string()).collect()))
        .collect()
}

#[test]
fn one_unit_in_blue_coalition() {
    let m = mission(vec![(
        s("blue"),
        table(vec![(
            s("country"),
            table(vec![(
                Value::Int(1),
                table(vec![(s("plane"), table(vec![(s("group"), table(vec![(Value::Int(1), unit("F-16C_50", "aggressor"))]))]))]),
            )]),
        )]),
    )]);
    let r = parse_mission_liveries(&m).unwrap();
    assert_eq!(as_btree(&r), expect(&[("f-16c_50", &["aggressor"])]));
}

#[test]
fn unit_needs_both_string_fields() {
    let m = mission(vec![(
        s("red"),
        table(vec![
            (Value::Int(1), table(vec![(s("type"), s("Su-27"))])),
            (Value::Int(2), table(vec![(s("livery_id"), s("lone"))])),
            (Value::Int(3), table(vec![(s("type"), s("MiG-29A")), (s("livery_id"), Value::Int(4))])),
            (Value::Int(4), table(vec![(s("type"), Value::Other), (s("livery_id"), s("x"))])),
        ]),
    )]);
    let r = parse_mission_liveries(&m).unwrap();
    assert!(r.as_rows().is_empty());
}

#[test]
fn case_differences_share_a_key() {
    let m = mission(vec![(
        s("blue"),
        table(vec![
            (Value::Int(1), unit("F-16C", "Aggressor")),
            (Value::Int(2), unit("f-16c", "aggressor")),
            (Value::Int(3), unit("F-16c", "Splinter")),
        ]),
    )]);
    let r = parse_mission_liveries(&m).unwrap();
    assert_eq!(as_btree(&r), expect(&[("f-16c", &["aggressor", "splinter"])]));
}

#[test]
fn every_coalition_and_depth_is_searched() {
    let deep = table(vec![(s("a"), table(vec![(s("b"), table(vec![(s("c"), unit("A-10C", "Grey"))]))]))]);
    let m = mission(vec![
        (s("blue"), table(vec![(Value::Int(1), unit("F-16C_50", "aggressor")), (s("deep"), deep)])),
        (s("red"), table(vec![(Value::Int(7), unit("MiG-29A", "Fulcrum"))])),
        (s("neutrals"), table(vec![])),
    ]);
    let r = parse_mission_liveries(&m).unwrap();
    assert_eq!(
        as_btree(&r),
        expect(&[("f-16c_50", &["aggressor"]), ("a-10c", &["grey"]), ("mig-29a", &["fulcrum"])])
    );
}

#[test]
fn unit_record_is_not_searched_further() {
    let mut outer = vec![(s("type"), s("Ka-50")), (s("livery_id"), s("Army"))];
    outer.push((s("wingman"), unit("Mi-8", "Desert")));
    let m = mission(vec![(s("blue"), table(vec![(Value::Int(1), table(outer))]))]);
    let r = parse_mission_liveries(&m).unwrap();
    assert_eq!(as_btree(&r), expect(&[("ka-50", &["army"])]));
}

#[test]
fn coalition_itself_may_be_a_unit() {
    let m = mission(vec![(Value::Int(1), unit("F-15C", "Eagle"))]);
    let r = parse_mission_liveries(&m).unwrap();
    assert_eq!(as_btree(&r), expect(&[("f-15c", &["eagle"])]));
}

#[test]
fn order_of_units_does_not_change_the_map() {
    let a = mission(vec![(s("blue"), table(vec![(Value::Int(1), unit("F-16C", "a")), (Value::Int(2), unit("A-10C", "b"))]))]);
    let b = mission(vec![(s("blue"), table(vec![(Value::Int(2), unit("A-10C", "b")), (Value::Int(1), unit("F-16C", "a"))]))]);
    let ra = parse_mission_liveries(&a).unwrap();
    let rb = parse_mission_liveries(&b).unwrap();
    assert_eq!(as_btree(&ra), as_btree(&rb));
}

#[test]
fn extraction_is_repeatable() {
    let m = mission(vec![(s("blue"), table(vec![(Value::Int(1), unit("F-16C", "a")), (Value::Int(2), unit("F-16C", "b"))]))]);
    let first = parse_mission_liveries(&m).unwrap();
    let second = parse_mission_liveries(&m).unwrap();
    assert_eq!(first.as_rows(), second.as_rows());
}

#[test]
fn mission_that_is_not_a_table() {
    assert_eq!(parse_mission_liveries(&s("mission")).unwrap_err(), MissionError::NoCoalitions);
    assert_eq!(parse_mission_liveries(&Value::Other).unwrap_err(), MissionError::NoCoalitions);
}

#[test]
fn mission_without_coalition_table() {
    let m = table(vec![(s("theatre"), s("Caucasus"))]);
    assert_eq!(parse_mission_liveries(&m).unwrap_err(), MissionError::NoCoalitions);
    let m = table(vec![(s("coalition"), s("blue"))]);
    assert_eq!(parse_mission_liveries(&m).unwrap_err(), MissionError::NoCoalitions);
}

#[test]
fn coalition_that_is_not_a_table() {
    let m = mission(vec![(s("blue"), table(vec![(Value::Int(1), unit("F-16C", "a"))])), (s("red"), s("none"))]);
    assert_eq!(parse_mission_liveries(&m).unwrap_err(), MissionError::MalformedCoalition);
    let m = mission(vec![(Value::Other, table(vec![]))]);
    assert_eq!(parse_mission_liveries(&m).unwrap_err(), MissionError::MalformedCoalition);
}

#[test]
fn search_adds_to_what_is_there() {
    let mut m = LiveryMap::new();
    m.insert("f-16c".to_string(), "old".to_string());
    let t = vec![(Value::Int(1), unit("F-16C", "New")), (Value::Int(2), unit("F-16C", "old"))];
    lua_livery_search(&t, &mut m);
    assert_eq!(as_btree(&m), expect(&[("f-16c", &["old", "new"])]));
}
