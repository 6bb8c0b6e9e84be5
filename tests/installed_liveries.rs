use livery_check::install::{dir_livery_search, find_stock_liveries, is_livery_root, Entry};
use livery_check::livery_map::LiveryMap;
use std::collections::{BTreeMap, BTreeSet};

fn dir(name: &str, children: Vec<Entry>) -> Entry {
    Entry { name: name.to_string(), is_dir: true, children }
}

fn file(name: &str) -> Entry {
    Entry { name: name.to_string(), is_dir: false, children: vec![] }
}

fn as_btree(m: &LiveryMap) -> BTreeMap<String, BTreeSet<String>> {
    let mut out = BTreeMap::new();
    for (v, ls) in m.as_rows() {
        assert!(out.insert(v.clone(), ls.iter().cloned().collect::<BTreeSet<String>>()).is_none());
    }
    out
}

fn expect(pairs: &[(&str, &[&str])]) -> BTreeMap<String, BTreeSet<String>> {
    pairs
        .iter()
        .map(|(v, ls)| (v.to_string(), ls.iter().map(|l| l.to_string()).collect()))
        .collect()
}

#[test]
fn single_livery_folder() {
    let root = dir("DCS", vec![dir("Bazar", vec![dir("Liveries", vec![dir("f-16c_50", vec![dir("aggressor", vec![])])])])]);
    let r = find_stock_liveries(&root);
    assert_eq!(as_btree(&r), expect(&[("f-16c_50", &["aggressor"])]));
}

#[test]
fn marker_name_in_any_case() {
    assert!(is_livery_root("liveries"));
    assert!(is_livery_root("LIVERIES"));
    assert!(is_livery_root("Liveries"));
    assert!(!is_livery_root("livery"));
    assert!(!is_livery_root("liveries2"));
    assert!(!is_livery_root(""));
}

#[test]
fn only_livery_folders_contribute() {
    let root = dir(
        "DCS",
        vec![
            dir("Mods", vec![dir("aircraft", vec![dir("F-16C", vec![dir("Skins", vec![dir("x", vec![])])])])]),
            dir("CoreMods", vec![dir("LIVERIES", vec![dir("A-10C", vec![dir("Grey", vec![]), file("readme.txt")]), file("notes.lua")])]),
            dir("Bazar", vec![dir("Liveries", vec![dir("f-16c_50", vec![dir("Aggressor", vec![]), dir("splinter", vec![])])])]),
        ],
    );
    let r = find_stock_liveries(&root);
    assert_eq!(
        as_btree(&r),
        expect(&[("a-10c", &["grey"]), ("f-16c_50", &["aggressor", "splinter"])])
    );
}

#[test]
fn nothing_below_livery_directories_is_searched() {
    let root = dir(
        "Liveries",
        vec![dir("Su-27", vec![dir("Russia", vec![dir("liveries", vec![dir("hidden", vec![dir("deep", vec![])])])])])],
    );
    let r = find_stock_liveries(&root);
    assert_eq!(as_btree(&r), expect(&[("su-27", &["russia"])]));
}

#[test]
fn vehicle_without_livery_directories_has_no_key() {
    let root = dir("liveries", vec![dir("Ka-50", vec![file("description.lua")]), dir("Mi-8", vec![])]);
    let r = find_stock_liveries(&root);
    assert!(r.as_rows().is_empty());
}

#[test]
fn root_that_is_not_a_directory() {
    let r = find_stock_liveries(&file("liveries"));
    assert!(r.as_rows().is_empty());
}

#[test]
fn same_vehicle_in_two_folders_is_merged() {
    let root = dir(
        "DCS",
        vec![
            dir("a", vec![dir("Liveries", vec![dir("F-16C", vec![dir("one", vec![])])])]),
            dir("b", vec![dir("liveries", vec![dir("f-16c", vec![dir("ONE", vec![]), dir("two", vec![])])])]),
        ],
    );
    let r = find_stock_liveries(&root);
    assert_eq!(as_btree(&r), expect(&[("f-16c", &["one", "two"])]));
}

#[test]
fn scanning_is_repeatable() {
    let root = dir("x", vec![dir("Liveries", vec![dir("b", vec![dir("1", vec![])]), dir("a", vec![dir("2", vec![])])])]);
    let first = find_stock_liveries(&root);
    let second = find_stock_liveries(&root);
    assert_eq!(first.as_rows(), second.as_rows());
}

#[test]
fn search_adds_to_given_map() {
    let mut m = LiveryMap::new();
    m.insert("a".to_string(), "1".to_string());
    dir_livery_search(&dir("liveries", vec![dir("A", vec![dir("2", vec![])])]), &mut m);
    assert_eq!(as_btree(&m), expect(&[("a", &["1", "2"])]));
}
