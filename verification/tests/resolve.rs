use horologium::resolve::{
    editor_body, records_range, resolve_body, resolve_project, resolve_tags, BodyInput, DisplayError, RecordsRange,
    ResolveError,
};
use horologium::time::TimeParseError;
use horologium::types::{ProjectId, TagId, Timestamp};

fn s(x: &str) -> String {
    x.to_string()
}

fn tags() -> Vec<TagId> {
    vec![
        TagId { id: s("tag_1"), name: s("focus") },
        TagId { id: s("tag_2"), name: s("home") },
        TagId { id: s("tag_3"), name: s("homework") },
    ]
}

#[test]
fn exact_tag_that_is_the_only_close_one_is_taken_twice() {
    let r = resolve_tags(vec![s("focus")], &tags(), &vec![vec![true, false, false]]).unwrap();
    let ids: Vec<String> = r.iter().map(|t| t.id.clone()).collect();
    assert_eq!(ids, vec![s("tag_1"), s("tag_1")]);
}

#[test]
fn single_close_tag_is_taken() {
    let r = resolve_tags(vec![s("focu")], &tags(), &vec![vec![true, false, false]]).unwrap();
    assert_eq!(r.len(), 1);
    assert_eq!(r[0].name, "focus");
}

#[test]
fn tags_resolve_in_order() {
    let r = resolve_tags(
        vec![s("focu"), s("hme")],
        &tags(),
        &vec![vec![true, false, false], vec![false, true, false]],
    )
    .unwrap();
    let names: Vec<String> = r.iter().map(|t| t.name.clone()).collect();
    assert_eq!(names, vec![s("focus"), s("home")]);
}

#[test]
fn unknown_tag_fails() {
    match resolve_tags(vec![s("focu"), s("zzz")], &tags(), &vec![vec![true, false, false], vec![false, false, false]]) {
        Err(ResolveError::UnknownTag { candidate }) => assert_eq!(candidate, "zzz"),
        _ => panic!("expected an unknown tag"),
    }
}

#[test]
fn ambiguous_tag_fails_even_with_exact_match() {
    match resolve_tags(vec![s("home")], &tags(), &vec![vec![false, true, true]]) {
        Err(ResolveError::AmbiguousTag { candidate, matches }) => {
            assert_eq!(candidate, "home");
            assert_eq!(matches, vec![s("home"), s("homework")]);
        },
        _ => panic!("expected an ambiguous tag"),
    }
}

#[test]
fn no_tags_resolve_to_none() {
    assert_eq!(resolve_tags(vec![], &tags(), &vec![]).unwrap().len(), 0);
}

fn projects() -> Vec<ProjectId> {
    vec![ProjectId { id: s("proj_1"), name: s("Thesis") }, ProjectId { id: s("proj_2"), name: s("Theses") }]
}

#[test]
fn exact_project_wins_over_close_ones() {
    let p = resolve_project(s("Thesis"), &projects(), &vec![true, true]).unwrap();
    assert_eq!(p.id, "proj_1");
}

#[test]
fn single_close_project() {
    let p = resolve_project(s("Theses!"), &projects(), &vec![false, true]).unwrap();
    assert_eq!(p.id, "proj_2");
}

#[test]
fn project_resolution_errors() {
    match resolve_project(s("nothing"), &projects(), &vec![false, false]) {
        Err(ResolveError::UnknownProject { candidate }) => assert_eq!(candidate, "nothing"),
        _ => panic!("expected an unknown project"),
    }
    match resolve_project(s("Thes"), &projects(), &vec![true, true]) {
        Err(ResolveError::AmbiguousProject { candidate, matches }) => {
            assert_eq!(candidate, "Thes");
            assert_eq!(matches, vec![s("Thesis"), s("Theses")]);
        },
        _ => panic!("expected an ambiguous project"),
    }
}

#[test]
fn body_marker_asks_for_editor() {
    assert!(matches!(resolve_body(Some(s("__OPEN_EDITOR__"))), BodyInput::FromEditor));
    assert!(matches!(resolve_body(Some(s("text"))), BodyInput::Given(Some(ref b)) if b == "text"));
    assert!(matches!(resolve_body(None), BodyInput::Given(None)));
    assert_eq!(editor_body("\n  notes  \n\n"), "notes");
}

#[test]
fn today_range() {
    assert!(matches!(records_range(None, None, true, None), Ok(RecordsRange::Today)));
    assert!(matches!(records_range(None, None, false, Some(s("today"))), Ok(RecordsRange::Today)));
    assert!(matches!(records_range(None, None, true, Some(s("today"))), Ok(RecordsRange::Today)));
}

#[test]
fn explicit_range() {
    match records_range(Some(s("2024-01-02T03:04:05Z")), None, false, None) {
        Ok(RecordsRange::Between { start, end }) => {
            assert_eq!(start, Some(Timestamp { secs: 1_704_164_645, nanos: 0 }));
            assert_eq!(end, None);
        },
        _ => panic!("expected a range"),
    }
    assert!(matches!(records_range(None, None, false, None), Ok(RecordsRange::Between { start: None, end: None })));
}

#[test]
fn range_errors() {
    match records_range(None, None, true, Some(s("week"))) {
        Err(DisplayError::UnknownFilter { filter }) => assert_eq!(filter, "week"),
        _ => panic!("expected an unknown filter"),
    }
    match records_range(None, None, false, Some(s("week"))) {
        Err(DisplayError::UnknownFilter { filter }) => assert_eq!(filter, "week"),
        _ => panic!("expected an unknown filter"),
    }
    assert!(matches!(
        records_range(Some(s("2024-01-02T03:04:05Z")), None, true, None),
        Err(DisplayError::RangeWithToday)
    ));
    match records_range(Some(s("2024-01-02T03:04:05Z")), Some(s("later")), false, None) {
        Err(DisplayError::InvalidTime { text, reason }) => {
            assert_eq!(text, "later");
            assert_eq!(reason, TimeParseError::TooShort);
        },
        _ => panic!("expected an invalid time"),
    }
}
