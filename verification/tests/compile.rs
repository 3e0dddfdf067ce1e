use horologium::compile::{
    compile_path_step, day_path, directory_actions, eri_files, event_path, needs_rescan, plan_all_records, record_clocks,
    DirectoryScan, PathStep,
};
use horologium::fingerprints::{compare_fingerprints, FileAction, PathMap};
use horologium::paths::{is_eri_path, join, parent, path_has_component, path_has_parent};
use horologium::rows::{clock_from_row, fingerprints_from_rows};
use horologium::types::Date;

fn s(x: &str) -> String {
    x.to_string()
}

fn map(items: &[(&str, u64)]) -> PathMap {
    let mut m = PathMap::new();
    for (k, v) in items {
        m.insert(s(k), *v);
    }
    m
}

fn describe(actions: &[FileAction]) -> Vec<String> {
    actions
        .iter()
        .map(|a| match a {
            FileAction::Upsert { path, fingerprint } => format!("upsert {path} {fingerprint}"),
            FileAction::Delete { path } => format!("delete {path}"),
            FileAction::ClockUpsert { path, clock } => format!("clock {path} {clock}"),
            FileAction::ClockDelete { path } => format!("unclock {path}"),
        })
        .collect()
}

#[test]
fn path_map_insert_replaces() {
    let mut m = PathMap::new();
    m.insert(s("a"), 1);
    m.insert(s("b"), 2);
    m.insert(s("a"), 3);
    assert_eq!(m.len(), 2);
    assert_eq!(m.get(&s("a")), Some(3));
    assert_eq!(m.get(&s("c")), None);
    assert!(m.contains_key(&s("b")));
}

#[test]
fn compare_fingerprints_partitions_changes() {
    let scan = map(&[("d/new.eri", 1), ("d/same.eri", 2), ("d/changed.eri", 3)]);
    let cache = map(&[("d/same.eri", 2), ("d/changed.eri", 4), ("d/gone.eri", 5)]);
    let actions = compare_fingerprints(scan, cache);
    let mut got = describe(&actions);
    got.sort();
    assert_eq!(got, vec![s("delete d/gone.eri"), s("upsert d/changed.eri 3"), s("upsert d/new.eri 1")]);
}

#[test]
fn compare_fingerprints_nothing_changed() {
    let scan = map(&[("x.eri", 7)]);
    let cache = map(&[("x.eri", 7)]);
    assert!(compare_fingerprints(scan, cache).is_empty());
}

#[test]
fn directory_actions_for_missing_directory() {
    let cache = map(&[("Tags/a.eri", 1), ("Tags/b.eri", 2)]);
    let actions = directory_actions(&s("Tags"), DirectoryScan::Missing, cache);
    let got = describe(&actions);
    assert_eq!(got.len(), 3);
    assert_eq!(got[2], "unclock Tags");
    let mut deletes = got[..2].to_vec();
    deletes.sort();
    assert_eq!(deletes, vec![s("delete Tags/a.eri"), s("delete Tags/b.eri")]);
}

#[test]
fn directory_actions_for_found_directory() {
    let files = map(&[("P/a.eri", 9)]);
    let cache = map(&[("P/a.eri", 1)]);
    let actions = directory_actions(&s("P"), DirectoryScan::Found { clock: 4, files }, cache);
    assert_eq!(describe(&actions), vec![s("upsert P/a.eri 9"), s("clock P 4")]);
}

#[test]
fn needs_rescan_compares_clocks() {
    assert!(needs_rescan(3, 2));
    assert!(!needs_rescan(3, 3));
}

#[test]
fn eri_files_keeps_eri_files_in_order() {
    let paths = vec![s("d/b.eri"), s("d/dev-clock.txt"), s("d/.eri"), s("d/a.eri"), s("d/a.eri.bak")];
    assert_eq!(eri_files(paths), vec![s("d/b.eri"), s("d/a.eri")]);
}

#[test]
fn plan_all_records_finds_stale_and_orphaned_days() {
    let days = vec![(s("R/2024/01/01"), 3), (s("R/2024/01/02"), 5), (s("R/2024/01/03"), 1)];
    let cached = map(&[("R/2024/01/01", 3), ("R/2024/01/02", 4), ("R/2023/12/31", 2)]);
    let plan = plan_all_records(days, cached);
    assert_eq!(plan.stale, vec![(s("R/2024/01/02"), 5), (s("R/2024/01/03"), 1)]);
    assert_eq!(describe(&plan.orphans), vec![s("unclock R/2023/12/31")]);
}

#[test]
fn record_clocks_skip_projects_and_tags() {
    let rows = vec![
        (s("/d/Records/2024/01/02"), 3i64),
        (s("/d/Projects"), 4i64),
        (s("/d/Tags"), 5i64),
        (s("/d/Records/2024/01/02"), 6i64),
    ];
    let m = record_clocks(rows);
    assert_eq!(m.len(), 1);
    assert_eq!(m.get(&s("/d/Records/2024/01/02")), Some(6));
}

#[test]
fn fingerprints_from_rows_read_signed_values() {
    let m = fingerprints_from_rows(vec![(s("a.eri"), -1), (s("b.eri"), 2)]);
    assert_eq!(m.get(&s("a.eri")), Some(u64::MAX));
    assert_eq!(m.get(&s("b.eri")), Some(2));
}

#[test]
fn clock_from_row_defaults_to_zero() {
    assert_eq!(clock_from_row(None), 0);
    assert_eq!(clock_from_row(Some(12)), 12);
}

#[test]
fn compile_path_steps() {
    assert_eq!(compile_path_step("/d/Tags/x.eri", true, false), PathStep::Read);
    assert_eq!(compile_path_step("/d/Tags/x.eri", false, false), PathStep::Delete);
    assert_eq!(compile_path_step("/d/Tags/x.txt", true, false), PathStep::NotEri);
    assert_eq!(compile_path_step("/d/Tags", false, true), PathStep::NotEri);
}

#[test]
fn event_path_of_a_day() {
    assert_eq!(event_path("/data", &Date { days: 19_724 }), Some(s("/data/Records/2024/01/02")));
    assert_eq!(event_path("/data/", &Date { days: 0 }), Some(s("/data/Records/1970/01/01")));
    assert_eq!(event_path("/data", &Date { days: i64::MAX }), None);
}

#[test]
fn paths_behave_like_std() {
    assert_eq!(join("a", "b"), "a/b");
    assert_eq!(join("a/", "b"), "a/b");
    assert_eq!(join("", "b"), "b");
    assert!(is_eri_path("/x/y.eri"));
    assert!(is_eri_path("y.eri/"));
    assert!(!is_eri_path(".eri"));
    assert!(!is_eri_path("/x/y.ERI"));
    assert!(!is_eri_path("/x/y"));
    assert_eq!(parent("/a/b/c.eri"), "/a/b");
    assert_eq!(parent("/c.eri"), "/");
    assert_eq!(parent("c.eri"), "");
    assert!(path_has_parent("a"));
    assert!(!path_has_parent("/"));
    assert!(!path_has_parent(""));
    assert!(path_has_component("/d/Projects/x.eri", "Projects"));
    assert!(!path_has_component("/d/MyProjects/x.eri", "Projects"));
}

#[test]
fn applying_actions_reconciles_cache_with_scan() {
    let scan_items = [("d/a.eri", 1u64), ("d/b.eri", 2), ("d/c.eri", 30)];
    let cache_items = [("d/b.eri", 2u64), ("d/c.eri", 3), ("d/z.eri", 9)];
    let actions = compare_fingerprints(map(&scan_items), map(&cache_items));
    let mut cache: std::collections::BTreeMap<String, u64> =
        cache_items.iter().map(|(k, v)| (s(k), *v)).collect();
    for a in &actions {
        match a {
            FileAction::Upsert { path, fingerprint } => {
                cache.insert(path.clone(), *fingerprint);
            },
            FileAction::Delete { path } => {
                cache.remove(path);
            },
            _ => {},
        }
    }
    let expected: std::collections::BTreeMap<String, u64> = scan_items.iter().map(|(k, v)| (s(k), *v)).collect();
    assert_eq!(cache, expected);
}

#[test]
fn upserts_come_before_deletes() {
    let scan = map(&[("a", 1), ("b", 2), ("c", 3)]);
    let cache = map(&[("a", 1), ("b", 5), ("d", 4)]);
    let got = describe(&compare_fingerprints(scan, cache));
    assert_eq!(got.len(), 3);
    let mut first = got[..2].to_vec();
    first.sort();
    assert_eq!(first, vec![s("upsert b 2"), s("upsert c 3")]);
    assert_eq!(got[2], "delete d");
}

#[test]
fn written_records_go_into_the_bare_day_directory() {
    let d = Date { days: 19_724 };
    assert_eq!(day_path("/data", &d), Some(s("/data/2024/01/02")));
    assert_eq!(event_path("/data", &d), Some(s("/data/Records/2024/01/02")));
    assert_eq!(day_path("/data", &Date { days: i64::MAX }), None);
}

#[test]
fn path_map_keys_stay_distinct() {
    let m = map(&[("a", 1), ("b", 2), ("a", 3)]);
    m.keys_distinct();
    assert_eq!(m.len(), 2);
}

#[test]
fn whitespace_agrees_with_std() {
    for u in 0u32..=0x10FFFF {
        if let Some(c) = char::from_u32(u) {
            assert_eq!(horologium::text::char_is_whitespace(c), c.is_whitespace(), "{u:#x}");
        }
    }
}

#[test]
fn trailing_dot_components_are_left_out() {
    for p in ["x.eri/.", "x.eri/./", "/d/x.eri/./.", "a/./b", "a/.", "./x.eri", "/.", ".", "./.", "a/..", "/a/./b.eri/"] {
        let std_ext = std::path::Path::new(p).extension().map(|e| e == "eri").unwrap_or(false);
        assert_eq!(is_eri_path(p), std_ext, "{p}");
        let std_parent = std::path::Path::new(p).parent().map(|q| q.to_str().unwrap().to_string());
        assert_eq!(path_has_parent(p), std_parent.is_some(), "{p}");
        if let Some(q) = std_parent {
            let ours = parent(p);
            let expected = if q.is_empty() { String::new() } else { q };
            assert_eq!(ours, expected, "{p}");
        }
    }
}
