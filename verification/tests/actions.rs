use horologium::actions::{clock_path, next_clock, sum_clocks, Actions, ModifyError};
use horologium::compile::{compile_document, Compiled};
use horologium::paths::paths_equal;
use horologium::documents::EriError;
use horologium::ids::uuidv7_from_datetime;
use horologium::paths::{is_eri_path, parent};
use horologium::types::{
    Color, Colorscheme, Date, Event, Project, ProjectState, Record, RecordId, Tag, TagId, Timestamp,
};

fn s(x: &str) -> String {
    x.to_string()
}

fn is_safe(c: char) -> bool {
    c == '_' || c == '-' || c.is_ascii_alphanumeric()
}

#[test]
fn next_clock_counts_up() {
    assert_eq!(next_clock(None), 1);
    assert_eq!(next_clock(Some(s("41\n"))), 42);
    assert_eq!(next_clock(Some(s("  +7 "))), 8);
    assert_eq!(next_clock(Some(s("garbage"))), 1);
    assert_eq!(next_clock(Some(s(""))), 1);
    assert_eq!(next_clock(Some(s("18446744073709551616"))), 1);
}

#[test]
fn clock_written_is_read_back() {
    let n = next_clock(Some(s("9")));
    assert_eq!(next_clock(Some(n.to_string())), n + 1);
}

#[test]
fn clock_files_are_recognised() {
    assert!(clock_path("/d/Records/2024/01/02/laptop-clock.txt"));
    assert!(clock_path("/d/Tags/laptop.clock"));
    assert!(!clock_path("/d/Tags/laptop.eri"));
    assert!(!clock_path("clock"));
}

#[test]
fn clocks_sum_their_values() {
    assert_eq!(sum_clocks(&vec![Some(s("3")), None, Some(s(" 4\n")), Some(s("x"))]), 7);
    assert_eq!(sum_clocks(&vec![]), 0);
    assert_eq!(sum_clocks(&vec![Some(u64::MAX.to_string()), Some(s("1"))]), u64::MAX);
}

#[test]
fn uuid_carries_the_millisecond() {
    let t = Timestamp { secs: 1_497_624_119, nanos: 1_234 };
    let id = uuidv7_from_datetime(&t);
    assert!(id.starts_with("015cb15a-86d8-7"));
    assert_eq!(id.len(), 36);
    let variant = id.chars().nth(19).unwrap();
    assert!("89ab".contains(variant));
}

#[test]
fn start_writes_into_the_day_directory() {
    let actions = Actions::new(s("/data"), s("my/laptop"));
    let t = Timestamp { secs: 1_704_164_645, nanos: 0 };
    let (id, w) = actions
        .start(s("deep: work"), vec![TagId { id: s("tag_1"), name: s("focus") }], None, None, t)
        .unwrap();
    assert_eq!(id.0.len(), 36);
    assert!(id.0.starts_with("018cc820-d888-7"));
    assert_eq!(w.dir, "/data/2024/01/02");
    assert_eq!(w.clock, "/data/2024/01/02/mylaptop-clock.txt");
    assert_eq!(w.file, format!("/data/2024/01/02/deep work-{}-mylaptop.eri", id.0));
    assert!(is_eri_path(&w.file));
    assert_eq!(parent(&w.file), parent(&w.clock));
    match Record::try_from_eri(w.document) {
        Ok(r) => {
            assert_eq!(r.id.0, id.0);
            assert_eq!(r.start, t);
            assert!(matches!(r.event, Event::Active { ref name, .. } if name == "deep: work"));
        },
        _ => panic!("the written document reads back as a record"),
    }
}

#[test]
fn stop_without_name_is_untracked() {
    let actions = Actions::new(s("/data"), s("pc"));
    let t = Timestamp { secs: 0, nanos: 0 };
    let (id, w) = actions.stop(None, Some(s("done for today")), t).unwrap();
    assert_eq!(w.dir, "/data/1970/01/01");
    assert_eq!(w.file, format!("/data/1970/01/01/untracked-{}-pc.eri", id.0));
    assert_eq!(w.document.schema, "horologium:event");
    match Record::try_from_eri(w.document) {
        Ok(r) => {
            assert!(matches!(r.event, Event::Inactive { name: None }));
            assert_eq!(r.body, Some(s("done for today")));
        },
        _ => panic!("the written document reads back as a record"),
    }
}

#[test]
fn start_out_of_range() {
    let actions = Actions::new(s("/data"), s("pc"));
    let t = Timestamp { secs: i64::MAX, nanos: 0 };
    assert_eq!(actions.start(s("x"), vec![], None, None, t).err(), Some(EriError::TimeOutOfRange));
}

#[test]
fn define_tag_writes_into_tags() {
    let actions = Actions::new(s("/data"), s("pc"));
    let (tag, w) = actions.define_tag(s("focus"), vec![Color::of(Colorscheme::Sky)]);
    assert!(tag.id.starts_with("tag_"));
    assert_eq!(tag.id.len(), 15);
    assert!(tag.id.chars().skip(4).all(is_safe));
    assert_eq!(tag.name, "focus");
    assert_eq!(w.dir, "/data/Tags");
    assert_eq!(w.clock, "/data/Tags/pc.clock");
    assert_eq!(w.file, format!("/data/Tags/focus-{}-pc.eri", tag.id));
    match compile_document(w.document) {
        Ok(Compiled::Tag(t)) => {
            assert_eq!(t.id, tag.id);
            assert_eq!(t.color, vec![Color::of(Colorscheme::Sky)]);
        },
        _ => panic!("the written document compiles as a tag"),
    }
}

#[test]
fn define_project_writes_into_projects() {
    let actions = Actions::new(s("/data"), s("pc"));
    let (p, w) = actions.define_project(s("Thesis"), vec![], Some(s("body")));
    assert!(p.id.starts_with("proj_"));
    assert_eq!(p.id.len(), 16);
    assert_eq!(w.clock, "/data/Projects/pc-clock.txt");
    assert_eq!(w.file, format!("/data/Projects/Thesis-{}-pc.eri", p.id));
    match compile_document(w.document) {
        Ok(Compiled::Project(q)) => {
            assert_eq!(q.state, ProjectState::Active);
            assert_eq!(q.body, Some(s("body")));
        },
        _ => panic!("the written document compiles as a project"),
    }
}

#[test]
fn modify_tags_moves_renamed_tag() {
    let actions = Actions::new(s("/data"), s("pc"));
    let tag = Tag { id: s("tag_1"), name: s("renamed"), color: vec![] };
    let (id, m) = actions.modify_tags(s("/data/Tags/old-tag_1-pc.eri"), tag);
    assert_eq!(id.id, "tag_1");
    assert_eq!(m.write.file, "/data/Tags/renamed-tag_1-pc.eri");
    assert_eq!(m.remove, Some(s("/data/Tags/old-tag_1-pc.eri")));
    assert_eq!(m.old_clock, None);
    let tag = Tag { id: s("tag_1"), name: s("renamed"), color: vec![] };
    let (_, m) = actions.modify_tags(s("/data/Tags/renamed-tag_1-pc.eri"), tag);
    assert_eq!(m.remove, None);
}

#[test]
fn modify_project_errors_where_date_cannot_be_written() {
    let actions = Actions::new(s("/data"), s("pc"));
    let p = Project {
        id: s("proj_1"),
        name: s("n"),
        state: ProjectState::Done { completed_date: Date { days: i64::MAX } },
        color: vec![],
        body: None,
    };
    assert_eq!(actions.modify_project(s("/data/Projects/n-proj_1-pc.eri"), p).err(), Some(EriError::TimeOutOfRange));
    let p = Project { id: s("proj_1"), name: s("n"), state: ProjectState::Active, color: vec![], body: None };
    let (id, m) = actions.modify_project(s("/data/Projects/n-proj_1-pc.eri"), p).unwrap();
    assert_eq!(id.id, "proj_1");
    assert_eq!(m.remove, None);
}

#[test]
fn modify_record_moving_day_bumps_old_clock() {
    let actions = Actions::new(s("/data"), s("pc"));
    let r = Record {
        id: RecordId(s("rid")),
        start: Timestamp { secs: 1_704_164_645, nanos: 0 },
        event: Event::Inactive { name: Some(s("lunch")) },
        body: None,
    };
    let (id, m) = actions.modify_record(s("/data/2024/01/01/lunch-rid-pc.eri"), r).unwrap();
    assert_eq!(id.0, "rid");
    assert_eq!(m.write.file, "/data/2024/01/02/lunch-rid-pc.eri");
    assert_eq!(m.write.clock, "/data/2024/01/02/pc-clock.txt");
    assert_eq!(m.old_clock, Some(s("/data/2024/01/01/pc-clock.txt")));
    assert_eq!(m.remove, Some(s("/data/2024/01/01/lunch-rid-pc.eri")));
}

#[test]
fn modify_record_renaming_in_place() {
    let actions = Actions::new(s("/data"), s("pc"));
    let r = Record {
        id: RecordId(s("rid")),
        start: Timestamp { secs: 1_704_164_645, nanos: 0 },
        event: Event::Inactive { name: None },
        body: None,
    };
    let (_, m) = actions.modify_record(s("/data/2024/01/02/lunch-rid-pc.eri"), r).unwrap();
    assert_eq!(m.write.file, "/data/2024/01/02/untracked-rid-pc.eri");
    assert_eq!(m.old_clock, None);
    assert_eq!(m.remove, Some(s("/data/2024/01/02/lunch-rid-pc.eri")));
}

#[test]
fn modify_record_same_file() {
    let actions = Actions::new(s("/data"), s("pc"));
    let r = Record {
        id: RecordId(s("rid")),
        start: Timestamp { secs: 1_704_164_645, nanos: 0 },
        event: Event::Inactive { name: None },
        body: None,
    };
    let (_, m) = actions.modify_record(s("/data/2024/01/02/untracked-rid-pc.eri"), r).unwrap();
    assert_eq!(m.old_clock, None);
    assert_eq!(m.remove, None);
}

#[test]
fn modify_record_errors() {
    let actions = Actions::new(s("/data"), s("pc"));
    let r = Record {
        id: RecordId(s("rid")),
        start: Timestamp { secs: 1_704_164_645, nanos: 0 },
        event: Event::Inactive { name: None },
        body: None,
    };
    assert_eq!(actions.modify_record(s("/"), r).err(), Some(ModifyError::NoParent));
    let r = Record {
        id: RecordId(s("rid")),
        start: Timestamp { secs: i64::MIN, nanos: 0 },
        event: Event::Inactive { name: None },
        body: None,
    };
    assert_eq!(actions.modify_record(s("/x/y.eri"), r).err(), Some(ModifyError::TimeOutOfRange));
}

#[test]
fn paths_compare_by_component() {
    assert!(paths_equal("/d/05//x.eri", "/d/05/x.eri"));
    assert!(paths_equal("/d/05/./x.eri", "/d/05/x.eri"));
    assert!(!paths_equal("/d/05/x.eri", "d/05/x.eri"));
    assert!(!paths_equal("/d/05/x.eri", "/d/06/x.eri"));
    let actions = Actions::new(s("/data"), s("pc"));
    let r = Record {
        id: RecordId(s("rid")),
        start: Timestamp { secs: 1_704_164_645, nanos: 0 },
        event: Event::Inactive { name: None },
        body: None,
    };
    let (_, m) = actions.modify_record(s("/data/2024/01//02/untracked-rid-pc.eri"), r).unwrap();
    assert_eq!(m.remove, None);
    assert_eq!(m.old_clock, None);
    let tag = Tag { id: s("tag_1"), name: s("same"), color: vec![] };
    let (_, m) = actions.modify_tags(s("/data//Tags/same-tag_1-pc.eri"), tag);
    assert_eq!(m.remove, None);
}

#[test]
fn clean_names_are_kept_whole() {
    let actions = Actions::new(s("/data"), s("pc"));
    let (tag, w) = actions.define_tag(s("Deep Work 2"), vec![]);
    assert_eq!(w.file, format!("/data/Tags/Deep Work 2-{}-pc.eri", tag.id));
    let (tag, w) = actions.define_tag(s("a/b"), vec![]);
    assert_eq!(w.file, format!("/data/Tags/ab-{}-pc.eri", tag.id));
}
