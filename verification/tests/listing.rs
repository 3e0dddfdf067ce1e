use horologium::display::{format_colored, visible_len};
use horologium::listing::{
    i64_text, project_rows, tag_rows, tags_column, timeline_row, ProjectWithColor, RecordWithTagsAndProject, TagEntry,
    TagWithColor,
};
use horologium::rows::{colors_json, project_row, record_rows, tag_row, RowError};
use horologium::types::{
    Color, Colorscheme, Date, Event, Fingerprint, Project, ProjectId, ProjectState, Record, RecordId, Tag, TagId,
    Timestamp,
};

fn s(x: &str) -> String {
    x.to_string()
}

fn tag_map() -> Vec<TagEntry> {
    vec![
        TagEntry { id: s("tag_1"), name: s("focus"), color: Some(s("[\"Sky\"]")) },
        TagEntry { id: s("tag_2"), name: s("home"), color: None },
        TagEntry { id: s("tag_1"), name: s("deep focus"), color: None },
    ]
}

#[test]
fn tags_column_names_and_paints() {
    assert_eq!(tags_column(&None, &tag_map()), "-");
    assert_eq!(tags_column(&Some(s("  ")), &tag_map()), "-");
    assert_eq!(tags_column(&Some(s(" , ,")), &tag_map()), "-");
    assert_eq!(tags_column(&Some(s("tag_2, tag_9")), &tag_map()), "home, tag_9");
    assert_eq!(tags_column(&Some(s("tag_1")), &tag_map()), "deep focus");
}

#[test]
fn tags_column_paints_with_stored_colours() {
    let map = vec![TagEntry { id: s("a"), name: s("x"), color: Some(s("[\"Sky\"]")) }];
    assert_eq!(tags_column(&Some(s("a,a")), &map), format!("{}, {}", format_colored("x", Some("[\"Sky\"]")), format_colored("x", Some("[\"Sky\"]"))));
}

#[test]
fn timeline_row_of_an_open_record() {
    let r = RecordWithTagsAndProject {
        id: s("r1"),
        name: Some(s("   ")),
        status: s("active"),
        start: 0,
        end: None,
        project_id: Some(s("proj_1")),
        project_name: Some(s("Thesis")),
        project_color: None,
        tag_ids: Some(s("tag_2")),
    };
    let row = timeline_row(&r, &tag_map(), Some(s("start")), Some(s("ignored")), 61_000);
    assert_eq!(row, vec![s("Untracked"), s("start"), s("-"), s("1m 1s"), s("home"), s("Thesis")]);
}

#[test]
fn timeline_row_of_a_closed_record() {
    let r = RecordWithTagsAndProject {
        id: s("r1"),
        name: Some(s("lunch")),
        status: s("inactive"),
        start: 1_000,
        end: Some(3_601_000),
        project_id: None,
        project_name: Some(s("")),
        project_color: None,
        tag_ids: None,
    };
    let row = timeline_row(&r, &tag_map(), Some(s("a")), Some(s("b")), 0);
    assert_eq!(row, vec![s("lunch"), s("a"), s("b"), s("1h 0m 0s"), s("-"), s("-")]);
}

#[test]
fn tag_and_project_rows_skip_blank_names() {
    let tags = vec![
        TagWithColor { id: s("1"), name: s("a"), color: Some(s("[\"Plum\"]")) },
        TagWithColor { id: s("2"), name: s(" "), color: None },
    ];
    let rows = tag_rows(&tags);
    assert_eq!(rows, vec![vec![format_colored("a", Some("[\"Plum\"]"))]]);
    assert_eq!(visible_len(&rows[0][0]), 1);
    let projects = vec![
        ProjectWithColor { id: s("1"), name: s(""), state: None, color: None },
        ProjectWithColor { id: s("2"), name: s("b"), state: Some(s("active")), color: None },
    ];
    assert_eq!(project_rows(&projects), vec![vec![s("b")]]);
}

#[test]
fn record_rows_of_a_start() {
    let rec = Record {
        id: RecordId(s("rid")),
        start: Timestamp { secs: 1_704_164_645, nanos: 7 },
        event: Event::Active {
            name: s("write"),
            tags: vec![TagId { id: s("t1"), name: s("a") }, TagId { id: s("t2"), name: s("b") }],
            project: Some(ProjectId { id: s("p1"), name: s("P") }),
        },
        body: None,
    };
    let (row, tags) = record_rows(rec, s("/d/x.eri"), u64::MAX);
    assert_eq!(row.id, "rid");
    assert_eq!(row.name, Some(s("write")));
    assert_eq!(row.status, "active");
    assert_eq!(row.start, 1_704_164_645);
    assert_eq!(row.project_id, Some(s("p1")));
    assert_eq!(row.path, "/d/x.eri");
    assert_eq!(row.fingerprint, -1);
    assert_eq!(tags.len(), 2);
    assert_eq!((tags[1].tag_id.as_str(), tags[1].record_id.as_str(), tags[1].position), ("t2", "rid", 1));
}

#[test]
fn record_rows_of_a_stop() {
    let rec = Record {
        id: RecordId(s("rid")),
        start: Timestamp { secs: 5, nanos: 0 },
        event: Event::Inactive { name: None },
        body: None,
    };
    let (row, tags) = record_rows(rec, s("p"), 3);
    assert_eq!(row.status, "inactive");
    assert_eq!(row.name, None);
    assert_eq!(row.project_id, None);
    assert_eq!(row.fingerprint, 3);
    assert!(tags.is_empty());
}

#[test]
fn colours_are_stored_as_json_variant_names() {
    assert_eq!(colors_json(&vec![Color::of(Colorscheme::Strawberry), Color::of(Colorscheme::Lilac)]), Some(s("[\"Strawberry\",\"Lilac\"]")));
    assert_eq!(colors_json(&vec![]), Some(s("[]")));
    assert_eq!(colors_json(&vec![Color(s("foo")), Color(s("sky"))]), Some(s("[\"Sky\"]")));
}

#[test]
fn tag_and_project_row_values() {
    let t = Tag { id: s("t"), name: s("n"), color: vec![Color::of(Colorscheme::Mint)] };
    let row = tag_row(t, s("/d/Tags/n-t-pc.eri"), 9).unwrap();
    assert_eq!(row.color_json, "[\"Mint\"]");
    assert_eq!(row.fingerprint, 9);
    let p = Project {
        id: s("p"),
        name: s("n"),
        state: ProjectState::Done { completed_date: Date { days: 19_724 } },
        color: vec![],
        body: None,
    };
    let row = project_row(p, s("x"), 1).unwrap();
    assert_eq!(row.state, "done");
    assert_eq!(row.completed_date, Some(s("2024-01-02")));
    assert_eq!(row.color_json, "[]");
    let p = Project { id: s("p"), name: s("n"), state: ProjectState::Active, color: vec![], body: None };
    let row = project_row(p, s("x"), 1).unwrap();
    assert_eq!(row.state, "active");
    assert_eq!(row.completed_date, None);
    let p = Project {
        id: s("p"),
        name: s("n"),
        state: ProjectState::Done { completed_date: Date { days: i64::MAX } },
        color: vec![],
        body: None,
    };
    assert_eq!(project_row(p, s("x"), 1).err(), Some(RowError::TimeOutOfRange));
}

#[test]
fn fingerprint_hash_is_stable() {
    let a = Fingerprint { size: 10, mtime: 1, mtime_nsec: 2, ctime: 3, ctime_nsec: 4 };
    let b = Fingerprint { size: 10, mtime: 1, mtime_nsec: 2, ctime: 3, ctime_nsec: 4 };
    let c = Fingerprint { size: 11, mtime: 1, mtime_nsec: 2, ctime: 3, ctime_nsec: 4 };
    assert_eq!(a.hash_value(), b.hash_value());
    assert_ne!(a.hash_value(), c.hash_value());
}

#[test]
fn timeline_row_falls_back_on_numbers_and_dashes() {
    let r = RecordWithTagsAndProject {
        id: s("r1"),
        name: Some(s("x")),
        status: s("inactive"),
        start: -5,
        end: Some(1_000),
        project_id: None,
        project_name: None,
        project_color: None,
        tag_ids: None,
    };
    let row = timeline_row(&r, &tag_map(), None, None, 0);
    assert_eq!(row[1], "-5");
    assert_eq!(row[2], "-");
    assert_eq!(i64_text(i64::MIN), i64::MIN.to_string());
    assert_eq!(i64_text(0), "0");
    assert_eq!(i64_text(1_704_164_645_000), "1704164645000");
}
