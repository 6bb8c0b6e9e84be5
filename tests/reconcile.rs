use livery_check::audit::{run, Unmet};
use livery_check::install::{find_stock_liveries, Entry};
use livery_check::livery_map::LiveryMap;
use livery_check::mission::{parse_mission_liveries, Value};

fn map(pairs: &[(&str, &str)]) -> LiveryMap {
    let mut m = LiveryMap::new();
    for (v, l) in pairs {
        m.insert(v.to_string(), l.to_string());
    }
    m
}

#[test]
fn installed_livery_meets_requirement() {
    let needed = map(&[("f-16c_50", "aggressor")]);
    let stock = map(&[("f-16c_50", "aggressor")]);
    assert_eq!(run(&needed, &stock), Ok(()));
}

#[test]
fn other_livery_of_same_vehicle_is_unmet() {
    let needed = map(&[("f-16c_50", "aggressor")]);
    let stock = map(&[("f-16c_50", "other_skin")]);
    let unmet = run(&needed, &stock).unwrap_err();
    assert_eq!(unmet, vec![Unmet::MissingLivery("f-16c_50".to_string(), "aggressor".to_string())]);
    assert_eq!(unmet[0].message(), "no stock livery aggressor for f-16c_50");
}

#[test]
fn vehicle_without_any_stock_is_named() {
    let needed = map(&[("mig-29a", "fulcrum")]);
    let stock = map(&[("f-16c_50", "aggressor")]);
    let unmet = run(&needed, &stock).unwrap_err();
    assert_eq!(unmet, vec![Unmet::NoStock("mig-29a".to_string())]);
    assert_eq!(unmet[0].message(), "no stock liveries for mig-29a");
}

#[test]
fn missing_vehicle_leaves_others_unaffected() {
    let needed = map(&[("f-16c_50", "aggressor"), ("mig-29a", "a"), ("mig-29a", "b"), ("a-10c", "grey")]);
    let stock = map(&[("f-16c_50", "aggressor"), ("a-10c", "grey"), ("a-10c", "tan")]);
    let unmet = run(&needed, &stock).unwrap_err();
    assert_eq!(unmet, vec![Unmet::NoStock("mig-29a".to_string())]);
}

#[test]
fn every_unmet_requirement_is_reported() {
    let needed = map(&[("f-16c", "a"), ("f-16c", "b"), ("f-16c", "c"), ("su-27", "x"), ("ka-50", "y")]);
    let stock = map(&[("f-16c", "b"), ("ka-50", "z")]);
    let unmet = run(&needed, &stock).unwrap_err();
    assert_eq!(
        unmet,
        vec![
            Unmet::MissingLivery("f-16c".to_string(), "a".to_string()),
            Unmet::MissingLivery("f-16c".to_string(), "c".to_string()),
            Unmet::NoStock("su-27".to_string()),
            Unmet::MissingLivery("ka-50".to_string(), "y".to_string()),
        ]
    );
}

#[test]
fn nothing_required_is_met() {
    assert_eq!(run(&LiveryMap::new(), &LiveryMap::new()), Ok(()));
    assert_eq!(run(&LiveryMap::new(), &map(&[("a", "b")])), Ok(()));
}

#[test]
fn nothing_installed_fails_every_vehicle() {
    let needed = map(&[("a", "1"), ("b", "2"), ("a", "3")]);
    let unmet = run(&needed, &LiveryMap::new()).unwrap_err();
    assert_eq!(unmet, vec![Unmet::NoStock("a".to_string()), Unmet::NoStock("b".to_string())]);
}

#[test]
fn map_keeps_keys_and_ids_unique() {
    let m = map(&[("a", "1"), ("b", "2"), ("a", "1"), ("a", "3"), ("b", "2")]);
    let rows = m.as_rows();
    assert_eq!(rows.len(), 2);
    assert_eq!(rows[0], ("a".to_string(), vec!["1".to_string(), "3".to_string()]));
    assert_eq!(rows[1], ("b".to_string(), vec!["2".to_string()]));
    assert_eq!(m.get(&"a".to_string()), Some(&vec!["1".to_string(), "3".to_string()]));
    assert_eq!(m.get(&"c".to_string()), None);
}

#[test]
fn mission_and_installation_agree() {
    let s = |x: &str| Value::Str(x.to_string());
    let unit = Value::Table(vec![(s("type"), s("F-16C_50")), (s("livery_id"), s("aggressor"))]);
    let mission = Value::Table(vec![(
        s("coalition"),
        Value::Table(vec![(s("blue"), Value::Table(vec![(Value::Int(1), unit)]))]),
    )]);
    let needed = parse_mission_liveries(&mission).unwrap();

    let dir = |name: &str, children: Vec<Entry>| Entry { name: name.to_string(), is_dir: true, children };
    let root = dir("DCS", vec![dir("Liveries", vec![dir("f-16c_50", vec![dir("aggressor", vec![])])])]);
    let stock = find_stock_liveries(&root);

    assert_eq!(run(&needed, &stock), Ok(()));

    let other = dir("DCS", vec![dir("Liveries", vec![dir("f-16c_50", vec![dir("other_skin", vec![])])])]);
    let unmet = run(&needed, &find_stock_liveries(&other)).unwrap_err();
    assert_eq!(unmet, vec![Unmet::MissingLivery("f-16c_50".to_string(), "aggressor".to_string())]);
}
