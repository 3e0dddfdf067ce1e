use horologium::compile::{compile_document, CompileError, Compiled};
use horologium::documents::EriError;
use horologium::eri::{Eri, EriValue};
use horologium::time::{format_day, parse_datetime, to_rfc3339, TimeParseError};
use horologium::types::{
    Color, Colorscheme, Date, Event, Project, ProjectId, ProjectState, Record, RecordId, Tag, TagId,
    Timestamp,
};

fn s(x: &str) -> String {
    x.to_string()
}

fn start_record() -> Record {
    Record {
        id: RecordId(s("0190f1e2-0000-7000-8000-000000000000")),
        start: Timestamp { secs: 1_704_164_645, nanos: 0 },
        event: Event::Active {
            name: s("writing"),
            tags: vec![TagId { id: s("tag_a"), name: s("focus") }, TagId { id: s("tag_b"), name: s("home") }],
            project: Some(ProjectId { id: s("proj_x"), name: s("Thesis") }),
        },
        body: Some(s("chapter two")),
    }
}

#[test]
fn rfc3339_round_trip() {
    let t = Timestamp { secs: 1_704_164_645, nanos: 0 };
    let text = to_rfc3339(&t).unwrap();
    assert_eq!(text, "2024-01-02T03:04:05+00:00");
    assert_eq!(parse_datetime(&text), Ok(t));
    assert_eq!(
        parse_datetime("2024-01-02T04:04:05+01:00"),
        Ok(Timestamp { secs: 1_704_164_645, nanos: 0 })
    );
    assert_eq!(parse_datetime("yesterday"), Err(TimeParseError::TooShort));
    assert_eq!(parse_datetime("2024-01-02 03:04:05Zjunk"), Err(TimeParseError::TooLong));
    assert_eq!(parse_datetime("2024-13-02T03:04:05Z"), Err(TimeParseError::OutOfRange));
    assert_eq!(parse_datetime("2024/01/02T03:04:05Z"), Err(TimeParseError::Invalid));
}

#[test]
fn format_day_patterns() {
    let d = Date { days: 19_724 };
    assert_eq!(format_day(&d, "%Y-%m-%d"), Some(s("2024-01-02")));
    assert_eq!(format_day(&d, "%m"), Some(s("01")));
    assert_eq!(format_day(&Date { days: i64::MAX }, "%Y"), None);
}

#[test]
fn utc_date_and_midnight() {
    let t = Timestamp { secs: 1_704_164_645, nanos: 0 };
    assert_eq!(t.utc_date(), Date { days: 19_724 });
    assert_eq!(Timestamp { secs: -1, nanos: 0 }.utc_date(), Date { days: -1 });
    assert_eq!(Date { days: 19_724 }.midnight(), Some(Timestamp { secs: 1_704_153_600, nanos: 0 }));
    assert_eq!(t.millis(), 1_704_164_645_000);
    assert_eq!(Timestamp { secs: 1, nanos: 2_500_000 }.millis(), 1_002);
}

#[test]
fn record_document_round_trip() {
    let eri = Eri::from_record(start_record()).unwrap();
    assert_eq!(eri.schema, "horologium:event");
    assert_eq!(eri.version, "v1.0.0");
    let back = Record::try_from_eri(eri).unwrap();
    assert_eq!(back.id.0, "0190f1e2-0000-7000-8000-000000000000");
    assert_eq!(back.start, Timestamp { secs: 1_704_164_645, nanos: 0 });
    assert_eq!(back.body, Some(s("chapter two")));
    match back.event {
        Event::Active { name, tags, project } => {
            assert_eq!(name, "writing");
            assert_eq!(tags.len(), 2);
            assert_eq!(tags[1].id, "tag_b");
            assert_eq!(tags[1].name, "home");
            let p = project.unwrap();
            assert_eq!(p.id, "proj_x");
            assert_eq!(p.name, "Thesis");
        },
        Event::Inactive { .. } => panic!("expected a start"),
    }
}

#[test]
fn stop_document_round_trip() {
    let r = Record {
        id: RecordId(s("id1")),
        start: Timestamp { secs: 0, nanos: 5 },
        event: Event::Inactive { name: None },
        body: None,
    };
    let back = Record::try_from_eri(Eri::from_record(r).unwrap()).unwrap();
    assert_eq!(back.start, Timestamp { secs: 0, nanos: 5 });
    assert!(matches!(back.event, Event::Inactive { name: None }));
}

#[test]
fn record_out_of_range_start() {
    let mut r = start_record();
    r.start = Timestamp { secs: i64::MAX, nanos: 0 };
    assert!(matches!(Eri::from_record(r), Err(EriError::TimeOutOfRange)));
}

#[test]
fn record_errors() {
    let doc = |content: Vec<(String, EriValue)>| Eri {
        schema: s("horologium:record"),
        version: s("v1.0.0"),
        content,
        body: None,
    };
    assert_eq!(Record::try_from_eri(doc(vec![])).err(), Some(EriError::MissingRecordId));
    assert_eq!(
        Record::try_from_eri(doc(vec![(s("id"), EriValue::Str(s("x")))])).err(),
        Some(EriError::MissingStart)
    );
    let bad_start = (s("start"), EriValue::DateTime(s("noon")));
    assert_eq!(
        Record::try_from_eri(doc(vec![(s("id"), EriValue::Str(s("x"))), bad_start])).err(),
        Some(EriError::InvalidStart(TimeParseError::TooShort))
    );
    let start = || (s("start"), EriValue::DateTime(s("2024-01-02T03:04:05Z")));
    let idv = || (s("id"), EriValue::Str(s("x")));
    assert_eq!(Record::try_from_eri(doc(vec![idv(), start()])).err(), Some(EriError::MissingEvent));
    let ev = |items: Vec<(String, EriValue)>| (s("event"), EriValue::Object(items));
    assert_eq!(
        Record::try_from_eri(doc(vec![idv(), start(), ev(vec![])])).err(),
        Some(EriError::MissingEventType)
    );
    assert_eq!(
        Record::try_from_eri(doc(vec![idv(), start(), ev(vec![(s("enum"), EriValue::Str(s("active")))])])).err(),
        Some(EriError::MissingEventName)
    );
    assert_eq!(
        Record::try_from_eri(doc(vec![idv(), start(), ev(vec![(s("enum"), EriValue::Str(s("paused")))])])).err(),
        Some(EriError::InvalidEventType)
    );
}

#[test]
fn first_entry_of_a_key_wins() {
    let doc = Eri {
        schema: s("horologium:tag"),
        version: s("v1.0.0"),
        content: vec![
            (s("id"), EriValue::Str(s("tag_1"))),
            (s("name"), EriValue::Str(s("first"))),
            (s("name"), EriValue::Str(s("second"))),
        ],
        body: None,
    };
    assert_eq!(Tag::try_from_eri(doc).unwrap().name, "first");
}

#[test]
fn tag_document_round_trip() {
    let t = Tag {
        id: s("tag_123"),
        name: s("focus"),
        color: vec![Color::of(Colorscheme::Grape), Color::of(Colorscheme::Mint)],
    };
    let eri = Eri::from_tag(t);
    assert_eq!(eri.schema, "horologium:tag");
    match &eri.content[2].1 {
        EriValue::Array(items) => {
            assert!(matches!(&items[0], EriValue::Str(n) if n == "grape"));
        },
        _ => panic!("colours are a list"),
    }
    let back = Tag::try_from_eri(eri).unwrap();
    assert_eq!(back.id, "tag_123");
    assert_eq!(back.name, "focus");
    assert_eq!(back.color, vec![Color::of(Colorscheme::Grape), Color::of(Colorscheme::Mint)]);
}

#[test]
fn every_colour_text_is_kept() {
    let doc = Eri {
        schema: s("horologium:tag"),
        version: s("v1.0.0"),
        content: vec![
            (s("id"), EriValue::Str(s("tag_1"))),
            (s("name"), EriValue::Str(s("x"))),
            (
                s("color"),
                EriValue::Array(vec![EriValue::Str(s("banana")), EriValue::Str(s("sky")), EriValue::Id(s("a"), s("b"))]),
            ),
        ],
        body: None,
    };
    assert_eq!(Tag::try_from_eri(doc).unwrap().color, vec![Color(s("banana")), Color(s("sky"))]);
}

#[test]
fn project_keeps_unknown_colour_names() {
    let doc = Eri {
        schema: s("horologium:project"),
        version: s("v1.0.0"),
        content: vec![
            (s("state"), EriValue::Str(s("active"))),
            (s("id"), EriValue::Str(s("proj_1"))),
            (s("name"), EriValue::Str(s("n"))),
            (s("color"), EriValue::Array(vec![EriValue::Str(s("foo")), EriValue::Str(s("Mint"))])),
        ],
        body: None,
    };
    let p = Project::try_from_eri(doc).unwrap();
    assert_eq!(p.color, vec![Color(s("foo")), Color(s("Mint"))]);
    let back = Eri::from_project(p).unwrap();
    assert!(matches!(&back.content[3].1, EriValue::Array(items) if items.len() == 2));
    assert_eq!(Project::try_from_eri(back).unwrap().color, vec![Color(s("foo")), Color(s("Mint"))]);
}

#[test]
fn tag_errors() {
    let doc = Eri { schema: s("horologium:tag"), version: s("v1.0.0"), content: vec![], body: None };
    assert_eq!(Tag::try_from_eri(doc).err(), Some(EriError::MissingId));
    let doc = Eri {
        schema: s("horologium:tag"),
        version: s("v1.0.0"),
        content: vec![(s("id"), EriValue::Str(s("t")))],
        body: None,
    };
    assert_eq!(Tag::try_from_eri(doc).err(), Some(EriError::MissingName));
}

#[test]
fn project_document_round_trip() {
    let p = Project {
        id: s("proj_1"),
        name: s("Thesis"),
        state: ProjectState::Done { completed_date: Date { days: 19_724 } },
        color: vec![Color::of(Colorscheme::Lemon)],
        body: Some(s("notes")),
    };
    let eri = Eri::from_project(p).unwrap();
    assert_eq!(eri.schema, "horologium:project");
    assert!(matches!(&eri.content[1].1, EriValue::Date(t) if t == "2024-01-02T00:00:00+00:00"));
    let back = Project::try_from_eri(eri).unwrap();
    assert_eq!(back.state, ProjectState::Done { completed_date: Date { days: 19_724 } });
    assert_eq!(back.name, "Thesis");
    assert_eq!(back.body, Some(s("notes")));
    assert_eq!(back.color, vec![Color::of(Colorscheme::Lemon)]);
}

#[test]
fn project_errors() {
    let doc = |content: Vec<(String, EriValue)>| Eri {
        schema: s("horologium:project"),
        version: s("v1.0.0"),
        content,
        body: None,
    };
    assert_eq!(Project::try_from_eri(doc(vec![])).err(), Some(EriError::MissingState));
    assert_eq!(
        Project::try_from_eri(doc(vec![(s("state"), EriValue::Str(s("paused")))])).err(),
        Some(EriError::InvalidState)
    );
    assert_eq!(
        Project::try_from_eri(doc(vec![(s("state"), EriValue::Str(s("done")))])).err(),
        Some(EriError::MissingCompletedDate)
    );
    assert_eq!(
        Project::try_from_eri(doc(vec![
            (s("state"), EriValue::Str(s("done"))),
            (s("completed-date"), EriValue::Date(s("soon"))),
        ]))
        .err(),
        Some(EriError::InvalidCompletedDate(TimeParseError::TooShort))
    );
    assert_eq!(
        Project::try_from_eri(doc(vec![(s("state"), EriValue::Str(s("active")))])).err(),
        Some(EriError::MissingId)
    );
    let out_of_range = Project {
        id: s("p"),
        name: s("n"),
        state: ProjectState::Done { completed_date: Date { days: i64::MAX } },
        color: vec![],
        body: None,
    };
    assert_eq!(Eri::from_project(out_of_range).err(), Some(EriError::TimeOutOfRange));
}

#[test]
fn error_messages() {
    assert_eq!(EriError::MissingId.message(), "Missing id Value");
    assert_eq!(EriError::MissingRecordId.message(), "Missing ID Value");
    assert_eq!(EriError::MissingEventName.message(), "Missing name Value");
    assert_eq!(EriError::InvalidStart(TimeParseError::Invalid).message(), "input contains invalid characters");
    assert_eq!(EriError::InvalidCompletedDate(TimeParseError::TooShort).message(), "premature end of input");
    assert_eq!(EriError::InvalidEventType.message(), "Invalid Event Type!");
}

#[test]
fn compile_document_dispatches_on_schema() {
    let written = Eri::from_record(start_record()).unwrap();
    assert!(matches!(compile_document(written), Err(CompileError::InvalidSchema(_))));
    let mut eri = Eri::from_record(start_record()).unwrap();
    eri.schema = s("horologium:record");
    assert!(matches!(compile_document(eri), Ok(Compiled::Record(_))));
    let t = Tag { id: s("tag_1"), name: s("x"), color: vec![] };
    assert!(matches!(compile_document(Eri::from_tag(t)), Ok(Compiled::Tag(_))));
    let bad = Eri { schema: s("horologium:event"), version: s("v1.0.0"), content: vec![], body: None };
    match compile_document(bad) {
        Err(CompileError::InvalidSchema(schema)) => assert_eq!(schema, "horologium:event"),
        _ => panic!("expected an invalid schema"),
    }
    let empty_project =
        Eri { schema: s("horologium:project"), version: s("v1.0.0"), content: vec![], body: None };
    assert!(matches!(compile_document(empty_project), Err(CompileError::Invalid(EriError::MissingState))));
}
