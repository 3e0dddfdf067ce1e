//! Records, tags and projects as Eridanus documents, in both directions.

use vstd::prelude::*;
use crate::eri::{
    collect_strs, str_items, as_array, as_date_str, as_id, as_object, as_str, collect_ids, entries_v, get, get_date_str,
    get_str, id_items, lemma_entries_v, lemma_values_v, lookup, values_v, Eri, EriV, EriValue,
    EriValueV,
};
use crate::time::{
    in_four_digit_years, parse_datetime, rfc3339_parse, rfc3339_text, to_rfc3339, TimeParseError,
};
use crate::types::{
    colors_view, Color, Date, Event, EventV, IdV,
    Project, ProjectId, ProjectState, ProjectV, Record, RecordId, RecordV, Tag, TagId, TagV,
    Timestamp, tag_ids_view,
};

verus! {

broadcast use vstd::string::group_string_axioms;

/// Why a document does not describe a record, tag or project.
#[derive(Clone, Copy, PartialEq, Eq, Structural, Debug)]
pub enum EriError {
    /// A tag or project without an "id" string.
    MissingId,
    /// A record without an "id" string.
    MissingRecordId,
    MissingStart,
    /// A record whose start chrono cannot read, with chrono's reason.
    InvalidStart(TimeParseError),
    MissingEvent,
    MissingEventType,
    /// A tag or project without a "name" string.
    MissingName,
    /// A start event without a "name" string.
    MissingEventName,
    InvalidEventType,
    MissingState,
    MissingCompletedDate,
    /// A completion date that chrono cannot read, with chrono's reason.
    InvalidCompletedDate(TimeParseError),
    InvalidState,
    TimeOutOfRange,
}

impl EriError {
    /// The message that describes the error.
    pub open spec fn message_spec(self) -> Seq<char> {
        match self {
            EriError::MissingId => "Missing id Value"@,
            EriError::MissingRecordId => "Missing ID Value"@,
            EriError::MissingStart => "Missing Start Time"@,
            EriError::InvalidStart(k) => k.message_spec(),
            EriError::MissingEvent => "Missing Event Object"@,
            EriError::MissingEventType => "Missing Event Type"@,
            EriError::MissingName => "Missing Name"@,
            EriError::MissingEventName => "Missing name Value"@,
            EriError::InvalidEventType => "Invalid Event Type!"@,
            EriError::MissingState => "Missing state"@,
            EriError::MissingCompletedDate => "Missing completed Date for Completed Project"@,
            EriError::InvalidCompletedDate(k) => k.message_spec(),
            EriError::InvalidState => "Invalid State for Project"@,
            EriError::TimeOutOfRange => "Time out of range"@,
        }
    }

    /// The message that describes the error.
    pub fn message(&self) -> (s: &'static str)
        ensures
            s@ == self.message_spec(),
    {
        match self {
            EriError::MissingId => "Missing id Value",
            EriError::MissingRecordId => "Missing ID Value",
            EriError::MissingStart => "Missing Start Time",
            EriError::InvalidStart(k) => k.message(),
            EriError::MissingEvent => "Missing Event Object",
            EriError::MissingEventType => "Missing Event Type",
            EriError::MissingName => "Missing Name",
            EriError::MissingEventName => "Missing name Value",
            EriError::InvalidEventType => "Invalid Event Type!",
            EriError::MissingState => "Missing state",
            EriError::MissingCompletedDate => "Missing completed Date for Completed Project",
            EriError::InvalidCompletedDate(k) => k.message(),
            EriError::InvalidState => "Invalid State for Project",
            EriError::TimeOutOfRange => "Time out of range",
        }
    }
}

/// The view of a conversion result.
pub open spec fn result_v<T: View>(r: Result<T, EriError>) -> Result<T::V, EriError> {
    match r {
        Ok(t) => Ok(t@),
        Err(e) => Err(e),
    }
}

/// The version that every document is written with.
pub open spec fn version_v1() -> Seq<char> {
    "v1.0.0"@
}

// ---------------------------------------------------------------- records

/// The tags of an event: the identifier items of its "tags" array, or none.
pub open spec fn tags_of(v: Option<EriValueV>) -> Seq<IdV> {
    match as_array(v) {
        Some(a) => id_items(a),
        None => seq![],
    }
}

/// What a document says of a record.
pub open spec fn record_of_eri(e: EriV) -> Result<RecordV, EriError> {
    let c = e.content;
    match as_str(lookup(c, "id"@)) {
        None => Err(EriError::MissingRecordId),
        Some(id) => match as_date_str(lookup(c, "start"@)) {
            None => Err(EriError::MissingStart),
            Some(start_text) => match rfc3339_parse(start_text) {
                Err(k) => Err(EriError::InvalidStart(k)),
                Ok((secs, nanos)) => match as_object(lookup(c, "event"@)) {
                    None => Err(EriError::MissingEvent),
                    Some(ev) => match as_str(lookup(ev, "enum"@)) {
                        None => Err(EriError::MissingEventType),
                        Some(kind) => if kind == "active"@ {
                            match as_str(lookup(ev, "name"@)) {
                                None => Err(EriError::MissingEventName),
                                Some(name) => Ok(
                                    RecordV {
                                        id,
                                        start: Timestamp { secs, nanos },
                                        event: EventV::Active {
                                            name,
                                            tags: tags_of(lookup(ev, "tags"@)),
                                            project: as_id(lookup(ev, "project"@)),
                                        },
                                        body: e.body,
                                    },
                                ),
                            }
                        } else if kind == "inactive"@ {
                            Ok(
                                RecordV {
                                    id,
                                    start: Timestamp { secs, nanos },
                                    event: EventV::Inactive { name: as_str(lookup(ev, "name"@)) },
                                    body: e.body,
                                },
                            )
                        } else {
                            Err(EriError::InvalidEventType)
                        },
                    },
                },
            },
        },
    }
}

/// The identifier values of a sequence of tags.
pub open spec fn id_values(tags: Seq<IdV>) -> Seq<EriValueV> {
    tags.map_values(|t: IdV| EriValueV::Id(t.id, t.name))
}

/// The entries of the "event" object of a record.
pub open spec fn event_entries(ev: EventV) -> Seq<(Seq<char>, EriValueV)> {
    match ev {
        EventV::Active { name, tags, project } => seq![
            ("enum"@, EriValueV::Str("active"@)),
            ("tags"@, EriValueV::Array(id_values(tags))),
            ("name"@, EriValueV::Str(name)),
        ] + match project {
            Some(p) => seq![("project"@, EriValueV::Id(p.id, p.name))],
            None => seq![],
        },
        EventV::Inactive { name } => seq![("enum"@, EriValueV::Str("inactive"@))] + match name {
            Some(n) => seq![("name"@, EriValueV::Str(n))],
            None => seq![],
        },
    }
}

/// The document of a record whose start is written as `start_text`, under
/// the schema "horologium:event" that the written record documents carry.
pub open spec fn eri_of_record(r: RecordV, start_text: Seq<char>) -> EriV {
    EriV {
        schema: "horologium:event"@,
        version: version_v1(),
        content: seq![
            ("id"@, EriValueV::Str(r.id)),
            ("start"@, EriValueV::DateTime(start_text)),
            ("event"@, EriValueV::Object(event_entries(r.event))),
        ],
        body: r.body,
    }
}

/// The identifier values of a list of tags.
fn tag_values(tags: &Vec<TagId>) -> (v: Vec<EriValue>)
    ensures
        values_v(v@) == id_values(tag_ids_view(tags@)),
{
    let mut v: Vec<EriValue> = Vec::new();
    let mut i: usize = 0;
    while i < tags.len()
        invariant
            i <= tags@.len(),
            v@.len() == i,
            forall|j: int| 0 <= j < i ==> (#[trigger] v@[j]).view_v() == EriValueV::Id(tags@[j].id@, tags@[j].name@),
        decreases tags@.len() - i,
    {
        v.push(EriValue::Id(tags[i].id.clone(), tags[i].name.clone()));
        i = i + 1;
    }
    proof {
        lemma_values_v(v@);
        assert(values_v(v@) =~= id_values(tag_ids_view(tags@)));
    }
    v
}

impl Record {
    /// Reads a record from a document.
    pub fn try_from_eri(value: Eri) -> (r: Result<Record, EriError>)
        ensures
            result_v(r) == record_of_eri(value@),
    {
        let id = match get_str(&value.content, "id") {
            Some(s) => s,
            None => return Err(EriError::MissingRecordId),
        };
        let start_text = match get_date_str(&value.content, "start") {
            Some(s) => s,
            None => return Err(EriError::MissingStart),
        };
        let start = match parse_datetime(start_text.as_str()) {
            Ok(t) => t,
            Err(k) => return Err(EriError::InvalidStart(k)),
        };
        let event = {
            let event_object = match get(&value.content, "event") {
                Some(EriValue::Object(m)) => m,
                _ => return Err(EriError::MissingEvent),
            };
            let event_type = match get_str(event_object, "enum") {
                Some(s) => s,
                None => return Err(EriError::MissingEventType),
            };
            if event_type == "active".to_string() {
                let name = match get_str(event_object, "name") {
                    Some(s) => s,
                    None => return Err(EriError::MissingEventName),
                };
                let tags = match get(event_object, "tags") {
                    Some(EriValue::Array(a)) => collect_ids(a),
                    _ => {
                        let none: Vec<TagId> = Vec::new();
                        proof {
                            assert(tag_ids_view(none@) =~= seq![]);
                        }
                        none
                    },
                };
                let project = match get(event_object, "project") {
                    Some(EriValue::Id(a, b)) => Some(ProjectId { id: a.clone(), name: b.clone() }),
                    _ => None,
                };
                Event::Active { name, tags, project }
            } else if event_type == "inactive".to_string() {
                Event::Inactive { name: get_str(event_object, "name") }
            } else {
                return Err(EriError::InvalidEventType);
            }
        };
        Ok(Record { id: RecordId(id), start, event, body: value.body })
    }
}

impl Eri {
    /// Writes a record as a document; fails only where chrono cannot
    /// represent the start.
    pub fn from_record(value: Record) -> (r: Result<Eri, EriError>)
        ensures
            match rfc3339_text(value.start.secs, value.start.nanos) {
                Some(t) => r matches Ok(e) && e@ == eri_of_record(value@, t),
                None => r matches Err(e) && e == EriError::TimeOutOfRange,
            },
            in_four_digit_years(value.start.secs) ==> (r matches Ok(e) ==> record_of_eri(e@) == Ok::<
                RecordV,
                EriError,
            >(value@)),
    {
        let ghost rv = value@;
        let start_text = match to_rfc3339(&value.start) {
            Some(s) => s,
            None => return Err(EriError::TimeOutOfRange),
        };
        proof {
            if in_four_digit_years(value.start.secs) {
                law_record_roundtrip(rv, start_text@);
            }
        }
        let mut event: Vec<(String, EriValue)> = Vec::new();
        match value.event {
            Event::Active { name, tags, project } => {
                let tag_vals = tag_values(&tags);
                event.push(("enum".to_string(), EriValue::Str("active".to_string())));
                event.push(("tags".to_string(), EriValue::Array(tag_vals)));
                event.push(("name".to_string(), EriValue::Str(name)));
                match project {
                    Some(p) => {
                        event.push(("project".to_string(), EriValue::Id(p.id, p.name)));
                    },
                    None => {},
                }
            },
            Event::Inactive { name } => {
                event.push(("enum".to_string(), EriValue::Str("inactive".to_string())));
                match name {
                    Some(n) => {
                        event.push(("name".to_string(), EriValue::Str(n)));
                    },
                    None => {},
                }
            },
        }
        proof {
            lemma_entries_v(event@);
            assert(entries_v(event@) =~= event_entries(rv.event));
        }
        let mut content: Vec<(String, EriValue)> = Vec::new();
        content.push(("id".to_string(), EriValue::Str(value.id.0)));
        content.push(("start".to_string(), EriValue::DateTime(start_text)));
        content.push(("event".to_string(), EriValue::Object(event)));
        proof {
            lemma_entries_v(content@);
            assert(entries_v(content@) =~= eri_of_record(rv, start_text@).content);
        }
        Ok(Eri {
            schema: "horologium:event".to_string(),
            version: "v1.0.0".to_string(),
            content,
            body: value.body,
        })
    }
}

// ---------------------------------------------------------------- colours

/// The colours of a "color" value: every string item of the array, in
/// order; none where the value is absent or not an array.
pub open spec fn colors_of(v: Option<EriValueV>) -> Seq<Seq<char>> {
    match as_array(v) {
        Some(a) => str_items(a),
        None => seq![],
    }
}

/// The string values that name the colours.
pub open spec fn color_values(cs: Seq<Seq<char>>) -> Seq<EriValueV> {
    cs.map_values(|c: Seq<char>| EriValueV::Str(c))
}

/// The colours of the value named "color" in a map.
fn colors_in(m: &Vec<(String, EriValue)>) -> (r: Vec<Color>)
    ensures
        colors_view(r@) == colors_of(lookup(entries_v(m@), "color"@)),
{
    match get(m, "color") {
        Some(EriValue::Array(a)) => {
            let names = collect_strs(a);
            let ghost views = names@.map_values(|s: String| s@);
            let mut out: Vec<Color> = Vec::new();
            let mut i: usize = 0;
            while i < names.len()
                invariant
                    i <= names@.len(),
                    views == names@.map_values(|s: String| s@),
                    colors_view(out@) == views.subrange(0, i as int),
                decreases names@.len() - i,
            {
                let ghost before = out@;
                out.push(Color(names[i].clone()));
                proof {
                    assert(colors_view(out@) =~= colors_view(before).push(names@[i as int]@));
                    assert(views.subrange(0, i + 1) =~= views.subrange(0, i as int).push(names@[i as int]@));
                }
                i = i + 1;
            }
            proof {
                assert(views.subrange(0, names@.len() as int) =~= views);
            }
            out
        },
        _ => {
            let none: Vec<Color> = Vec::new();
            proof {
                assert(colors_view(none@) =~= seq![]);
            }
            none
        },
    }
}

/// The string values naming a list of colours.
fn color_values_of(cs: &Vec<Color>) -> (v: Vec<EriValue>)
    ensures
        values_v(v@) == color_values(colors_view(cs@)),
{
    let mut v: Vec<EriValue> = Vec::new();
    let mut i: usize = 0;
    while i < cs.len()
        invariant
            i <= cs@.len(),
            v@.len() == i,
            forall|j: int| 0 <= j < i ==> (#[trigger] v@[j]).view_v() == EriValueV::Str(cs@[j].0@),
        decreases cs@.len() - i,
    {
        v.push(EriValue::Str(cs[i].as_str()));
        i = i + 1;
    }
    proof {
        lemma_values_v(v@);
        assert(values_v(v@) =~= color_values(colors_view(cs@)));
    }
    v
}

// ---------------------------------------------------------------- tags

/// What a document says of a tag.
pub open spec fn tag_of_eri(e: EriV) -> Result<TagV, EriError> {
    let c = e.content;
    match as_str(lookup(c, "id"@)) {
        None => Err(EriError::MissingId),
        Some(id) => match as_str(lookup(c, "name"@)) {
            None => Err(EriError::MissingName),
            Some(name) => Ok(TagV { id, name, color: colors_of(lookup(c, "color"@)) }),
        },
    }
}

/// The document of a tag.
pub open spec fn eri_of_tag(t: TagV) -> EriV {
    EriV {
        schema: "horologium:tag"@,
        version: version_v1(),
        content: seq![
            ("id"@, EriValueV::Str(t.id)),
            ("name"@, EriValueV::Str(t.name)),
            ("color"@, EriValueV::Array(color_values(t.color))),
        ],
        body: None,
    }
}

impl Tag {
    /// Reads a tag from a document.
    pub fn try_from_eri(value: Eri) -> (r: Result<Tag, EriError>)
        ensures
            result_v(r) == tag_of_eri(value@),
    {
        let id = match get_str(&value.content, "id") {
            Some(s) => s,
            None => return Err(EriError::MissingId),
        };
        let name = match get_str(&value.content, "name") {
            Some(s) => s,
            None => return Err(EriError::MissingName),
        };
        let color = colors_in(&value.content);
        Ok(Tag { id, name, color })
    }
}

impl Eri {
    /// Writes a tag as a document.
    pub fn from_tag(value: Tag) -> (e: Eri)
        ensures
            e@ == eri_of_tag(value@),
    {
        let ghost tv = value@;
        let colors = color_values_of(&value.color);
        let mut content: Vec<(String, EriValue)> = Vec::new();
        content.push(("id".to_string(), EriValue::Str(value.id)));
        content.push(("name".to_string(), EriValue::Str(value.name)));
        content.push(("color".to_string(), EriValue::Array(colors)));
        proof {
            lemma_entries_v(content@);
            assert(entries_v(content@) =~= eri_of_tag(tv).content);
        }
        Eri {
            schema: "horologium:tag".to_string(),
            version: "v1.0.0".to_string(),
            content,
            body: None,
        }
    }
}

// ---------------------------------------------------------------- projects

/// The state a document gives a project, if it names a valid one.
pub open spec fn project_state_of(c: Seq<(Seq<char>, EriValueV)>) -> Result<ProjectState, EriError> {
    match as_str(lookup(c, "state"@)) {
        None => Err(EriError::MissingState),
        Some(state) => if state == "active"@ {
            Ok(ProjectState::Active)
        } else if state == "done"@ {
            match as_date_str(lookup(c, "completed-date"@)) {
                None => Err(EriError::MissingCompletedDate),
                Some(text) => match rfc3339_parse(text) {
                    Err(k) => Err(EriError::InvalidCompletedDate(k)),
                    Ok((secs, nanos)) => Ok(
                        ProjectState::Done {
                            completed_date: Date { days: (Timestamp { secs, nanos }).spec_day() as i64 },
                        },
                    ),
                },
            }
        } else {
            Err(EriError::InvalidState)
        },
    }
}

/// What a document says of a project.
pub open spec fn project_of_eri(e: EriV) -> Result<ProjectV, EriError> {
    let c = e.content;
    match project_state_of(c) {
        Err(err) => Err(err),
        Ok(state) => match as_str(lookup(c, "id"@)) {
            None => Err(EriError::MissingId),
            Some(id) => match as_str(lookup(c, "name"@)) {
                None => Err(EriError::MissingName),
                Some(name) => Ok(
                    ProjectV { id, name, state, color: colors_of(lookup(c, "color"@)), body: e.body },
                ),
            },
        },
    }
}

/// The document of a project; a completed one has its date written as
/// `done_text`.
pub open spec fn eri_of_project(p: ProjectV, done_text: Seq<char>) -> EriV {
    let state_entries = match p.state {
        ProjectState::Active => seq![("state"@, EriValueV::Str("active"@))],
        ProjectState::Done { .. } => seq![
            ("state"@, EriValueV::Str("done"@)),
            ("completed-date"@, EriValueV::Date(done_text)),
        ],
    };
    EriV {
        schema: "horologium:project"@,
        version: version_v1(),
        content: state_entries + seq![
            ("id"@, EriValueV::Str(p.id)),
            ("name"@, EriValueV::Str(p.name)),
            ("color"@, EriValueV::Array(color_values(p.color))),
        ],
        body: p.body,
    }
}

/// Whether a completion date, if any, falls in the years 0000 to 9999.
pub open spec fn state_in_four_digit_years(s: ProjectState) -> bool {
    match s {
        ProjectState::Active => true,
        ProjectState::Done { completed_date } => -62_167_219_200 <= completed_date.days * 86400
            <= 253_402_300_799,
    }
}

/// The text that a completed project's date is written as: the RFC 3339
/// text of midnight (UTC) of the day.
pub open spec fn done_text_of(d: Date) -> Option<Seq<char>> {
    if i64::MIN <= d.days * 86400 <= i64::MAX {
        rfc3339_text((d.days * 86400) as i64, 0)
    } else {
        None
    }
}

fn project_state_in(m: &Vec<(String, EriValue)>) -> (r: Result<ProjectState, EriError>)
    ensures
        r == project_state_of(entries_v(m@)),
{
    let state = match get_str(m, "state") {
        Some(s) => s,
        None => return Err(EriError::MissingState),
    };
    if state == "active".to_string() {
        Ok(ProjectState::Active)
    } else if state == "done".to_string() {
        let text = match get_date_str(m, "completed-date") {
            Some(s) => s,
            None => return Err(EriError::MissingCompletedDate),
        };
        match parse_datetime(text.as_str()) {
            Ok(t) => Ok(ProjectState::Done { completed_date: t.utc_date() }),
            Err(k) => Err(EriError::InvalidCompletedDate(k)),
        }
    } else {
        Err(EriError::InvalidState)
    }
}

impl Project {
    /// Reads a project from a document.
    pub fn try_from_eri(value: Eri) -> (r: Result<Project, EriError>)
        ensures
            result_v(r) == project_of_eri(value@),
    {
        let state = match project_state_in(&value.content) {
            Ok(s) => s,
            Err(e) => return Err(e),
        };
        let id = match get_str(&value.content, "id") {
            Some(s) => s,
            None => return Err(EriError::MissingId),
        };
        let name = match get_str(&value.content, "name") {
            Some(s) => s,
            None => return Err(EriError::MissingName),
        };
        let color = colors_in(&value.content);
        Ok(Project { id, name, state, color, body: value.body })
    }
}

impl Eri {
    /// Writes a project as a document; fails only where chrono cannot
    /// represent the completion date.
    pub fn from_project(value: Project) -> (r: Result<Eri, EriError>)
        ensures
            match value.state {
                ProjectState::Active => r matches Ok(e) && e@ == eri_of_project(value@, seq![]),
                ProjectState::Done { completed_date } => match done_text_of(completed_date) {
                    Some(t) => r matches Ok(e) && e@ == eri_of_project(value@, t),
                    None => r matches Err(e) && e == EriError::TimeOutOfRange,
                },
            },
            state_in_four_digit_years(value.state) ==> (r matches Ok(e) ==> project_of_eri(e@) == Ok::<
                ProjectV,
                EriError,
            >(value@)),
    {
        let ghost pv = value@;
        let mut content: Vec<(String, EriValue)> = Vec::new();
        let ghost mut done_text: Seq<char> = seq![];
        match value.state {
            ProjectState::Active => {
                content.push(("state".to_string(), EriValue::Str("active".to_string())));
                proof {
                    law_project_roundtrip(pv, done_text);
                }
            },
            ProjectState::Done { completed_date } => {
                let midnight = match completed_date.midnight() {
                    Some(t) => t,
                    None => return Err(EriError::TimeOutOfRange),
                };
                let text = match to_rfc3339(&midnight) {
                    Some(s) => s,
                    None => return Err(EriError::TimeOutOfRange),
                };
                proof {
                    done_text = text@;
                    if state_in_four_digit_years(value.state) {
                        law_project_roundtrip(pv, done_text);
                    }
                }
                content.push(("state".to_string(), EriValue::Str("done".to_string())));
                content.push(("completed-date".to_string(), EriValue::Date(text)));
            },
        }
        let colors = color_values_of(&value.color);
        content.push(("id".to_string(), EriValue::Str(value.id)));
        content.push(("name".to_string(), EriValue::Str(value.name)));
        content.push(("color".to_string(), EriValue::Array(colors)));
        proof {
            lemma_entries_v(content@);
            assert(entries_v(content@) =~= eri_of_project(pv, done_text).content);
        }
        Ok(Eri {
            schema: "horologium:project".to_string(),
            version: "v1.0.0".to_string(),
            content,
            body: value.body,
        })
    }
}

// ---------------------------------------------------------------- laws

proof fn lemma_keys_distinct()
    ensures
        "id"@ != "start"@,
        "id"@ != "event"@,
        "start"@ != "event"@,
        "enum"@ != "tags"@,
        "enum"@ != "name"@,
        "enum"@ != "project"@,
        "tags"@ != "name"@,
        "tags"@ != "project"@,
        "name"@ != "project"@,
        "active"@ != "inactive"@,
        "id"@ != "name"@,
        "id"@ != "color"@,
        "name"@ != "color"@,
        "state"@ != "completed-date"@,
        "state"@ != "id"@,
        "state"@ != "name"@,
        "state"@ != "color"@,
        "completed-date"@ != "id"@,
        "completed-date"@ != "name"@,
        "completed-date"@ != "color"@,
        "active"@ != "done"@,
{
    reveal_strlit("id");
    reveal_strlit("start");
    reveal_strlit("event");
    reveal_strlit("enum");
    reveal_strlit("tags");
    reveal_strlit("name");
    reveal_strlit("project");
    reveal_strlit("active");
    reveal_strlit("inactive");
    reveal_strlit("color");
    reveal_strlit("state");
    reveal_strlit("completed-date");
    reveal_strlit("done");
    assert("id"@.len() == 2 && "start"@.len() == 5 && "event"@.len() == 5 && "enum"@.len() == 4);
    assert("tags"@.len() == 4 && "name"@.len() == 4 && "project"@.len() == 7 && "active"@.len() == 6);
    assert("inactive"@.len() == 8 && "color"@.len() == 5 && "state"@.len() == 5);
    assert("completed-date"@.len() == 14 && "done"@.len() == 4);
    assert("start"@[0] == 's' && "event"@[0] == 'e' && "enum"@[0] == 'e' && "enum"@[1] == 'n');
    assert("tags"@[0] == 't' && "name"@[0] == 'n' && "color"@[0] == 'c' && "state"@[0] == 's');
    assert("start"@[1] == 't' && "state"@[1] == 't' && "start"@[2] == 'a' && "state"@[2] == 'a');
    assert("start"@[3] == 'r' && "state"@[3] == 't' && "active"@[0] == 'a' && "done"@[0] == 'd');
    assert("color"@[0] == 'c' && "event"@[1] == 'v');
}

proof fn lemma_id_items_values(tags: Seq<IdV>)
    ensures
        id_items(id_values(tags)) == tags,
    decreases tags.len(),
{
    if tags.len() > 0 {
        lemma_id_items_values(tags.drop_last());
        assert(id_values(tags).drop_last() =~= id_values(tags.drop_last()));
        assert(tags.drop_last().push(tags.last()) =~= tags);
    } else {
        assert(id_values(tags) =~= seq![]);
    }
}

proof fn lemma_colors_roundtrip(cs: Seq<Seq<char>>)
    ensures
        str_items(color_values(cs)) == cs,
    decreases cs.len(),
{
    if cs.len() > 0 {
        lemma_colors_roundtrip(cs.drop_last());
        assert(color_values(cs).drop_last() =~= color_values(cs.drop_last()));
        assert(cs.drop_last().push(cs.last()) =~= cs);
    } else {
        assert(color_values(cs) =~= seq![]);
    }
}

/// Reading back the document that a record was written as gives the record
/// again, wherever chrono reads the start text back as the start.
pub proof fn law_record_roundtrip(r: RecordV, start_text: Seq<char>)
    requires
        rfc3339_parse(start_text) == Ok::<(i64, u32), TimeParseError>((r.start.secs, r.start.nanos)),
    ensures
        record_of_eri(eri_of_record(r, start_text)) == Ok::<RecordV, EriError>(r),
{
    reveal_with_fuel(lookup, 6);
    lemma_keys_distinct();
    let e = eri_of_record(r, start_text);
    let c = e.content;
    assert(c.drop_first().drop_first().drop_first() =~= seq![]);
    assert(lookup(c, "id"@) == Some(EriValueV::Str(r.id)));
    assert(lookup(c.drop_first(), "start"@) == Some(EriValueV::DateTime(start_text)));
    assert(lookup(c, "start"@) == Some(EriValueV::DateTime(start_text)));
    assert(lookup(c.drop_first().drop_first(), "event"@) == Some(EriValueV::Object(event_entries(r.event))));
    assert(lookup(c, "event"@) == Some(EriValueV::Object(event_entries(r.event))));
    let ev = event_entries(r.event);
    match r.event {
        EventV::Active { name, tags, project } => {
            let t1 = ev.drop_first();
            let t2 = t1.drop_first();
            let t3 = t2.drop_first();
            assert(lookup(ev, "enum"@) == Some(EriValueV::Str("active"@)));
            assert(lookup(t2, "name"@) == Some(EriValueV::Str(name)));
            assert(lookup(t1, "name"@) == Some(EriValueV::Str(name)));
            assert(lookup(ev, "name"@) == Some(EriValueV::Str(name)));
            assert(lookup(t1, "tags"@) == Some(EriValueV::Array(id_values(tags))));
            assert(lookup(ev, "tags"@) == Some(EriValueV::Array(id_values(tags))));
            lemma_id_items_values(tags);
            match project {
                Some(p) => {
                    assert(t3 =~= seq![("project"@, EriValueV::Id(p.id, p.name))]);
                    assert(t3.drop_first() =~= seq![]);
                    assert(lookup(t3, "project"@) == Some(EriValueV::Id(p.id, p.name)));
                    assert(lookup(ev, "project"@) == Some(EriValueV::Id(p.id, p.name)));
                },
                None => {
                    assert(t3 =~= seq![]);
                    assert(lookup(ev, "project"@) == None::<EriValueV>);
                },
            }
        },
        EventV::Inactive { name } => {
            let t1 = ev.drop_first();
            assert(lookup(ev, "enum"@) == Some(EriValueV::Str("inactive"@)));
            match name {
                Some(n) => {
                    assert(t1 =~= seq![("name"@, EriValueV::Str(n))]);
                    assert(t1.drop_first() =~= seq![]);
                    assert(lookup(ev, "name"@) == Some(EriValueV::Str(n)));
                },
                None => {
                    assert(t1 =~= seq![]);
                    assert(lookup(ev, "name"@) == None::<EriValueV>);
                },
            }
        },
    }
}

/// Reading back the document that a tag was written as gives the tag again.
pub proof fn law_tag_roundtrip(t: TagV)
    ensures
        tag_of_eri(eri_of_tag(t)) == Ok::<TagV, EriError>(t),
{
    reveal_with_fuel(lookup, 6);
    lemma_keys_distinct();
    let c = eri_of_tag(t).content;
    assert(c.drop_first().drop_first().drop_first() =~= seq![]);
    assert(lookup(c, "id"@) == Some(EriValueV::Str(t.id)));
    assert(lookup(c.drop_first(), "name"@) == Some(EriValueV::Str(t.name)));
    assert(lookup(c, "name"@) == Some(EriValueV::Str(t.name)));
    assert(lookup(c.drop_first().drop_first(), "color"@) == Some(EriValueV::Array(color_values(t.color))));
    assert(lookup(c, "color"@) == Some(EriValueV::Array(color_values(t.color))));
    lemma_colors_roundtrip(t.color);
}

/// Reading back the document that a project was written as gives the
/// project again, wherever chrono reads the completion text back as
/// midnight of the completion day.
pub proof fn law_project_roundtrip(p: ProjectV, done_text: Seq<char>)
    requires
        p.state matches ProjectState::Done { completed_date } ==> rfc3339_parse(done_text) == Ok::<
            (i64, u32),
            TimeParseError,
        >(((completed_date.days * 86400) as i64, 0u32)) && i64::MIN <= completed_date.days * 86400 <= i64::MAX,
    ensures
        project_of_eri(eri_of_project(p, done_text)) == Ok::<ProjectV, EriError>(p),
{
    reveal_with_fuel(lookup, 6);
    lemma_keys_distinct();
    let c = eri_of_project(p, done_text).content;
    let tail = seq![
        ("id"@, EriValueV::Str(p.id)),
        ("name"@, EriValueV::Str(p.name)),
        ("color"@, EriValueV::Array(color_values(p.color))),
    ];
    assert(tail.drop_first().drop_first().drop_first() =~= seq![]);
    assert(lookup(tail, "id"@) == Some(EriValueV::Str(p.id)));
    assert(lookup(tail.drop_first(), "name"@) == Some(EriValueV::Str(p.name)));
    assert(lookup(tail, "name"@) == Some(EriValueV::Str(p.name)));
    assert(lookup(tail.drop_first().drop_first(), "color"@) == Some(EriValueV::Array(color_values(p.color))));
    assert(lookup(tail, "color"@) == Some(EriValueV::Array(color_values(p.color))));
    match p.state {
        ProjectState::Active => {
            assert(c.drop_first() =~= tail);
            assert(lookup(c, "state"@) == Some(EriValueV::Str("active"@)));
            assert(lookup(c, "id"@) == lookup(tail, "id"@));
            assert(lookup(c, "name"@) == lookup(tail, "name"@));
            assert(lookup(c, "color"@) == lookup(tail, "color"@));
        },
        ProjectState::Done { completed_date } => {
            assert(c.drop_first().drop_first() =~= tail);
            assert(lookup(c, "state"@) == Some(EriValueV::Str("done"@)));
            assert(lookup(c.drop_first(), "completed-date"@) == Some(EriValueV::Date(done_text)));
            assert(lookup(c, "completed-date"@) == Some(EriValueV::Date(done_text)));
            assert(lookup(c.drop_first(), "id"@) == lookup(tail, "id"@));
            assert(lookup(c, "id"@) == lookup(tail, "id"@));
            assert(lookup(c.drop_first(), "name"@) == lookup(tail, "name"@));
            assert(lookup(c, "name"@) == lookup(tail, "name"@));
            assert(lookup(c.drop_first(), "color"@) == lookup(tail, "color"@));
            assert(lookup(c, "color"@) == lookup(tail, "color"@));
            crate::types::lemma_midnight_day(
                completed_date,
                Timestamp { secs: (completed_date.days * 86400) as i64, nanos: 0 },
            );
        },
    }
    lemma_colors_roundtrip(p.color);
}

} // verus!
