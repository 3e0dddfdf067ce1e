//! What the actions of a device write: for each new or changed record, tag
//! or project, the directory, the device's clock file in it, the file that
//! holds the document, and the document itself. Each write bumps the clock
//! of the directory it goes to, so that compilation sees the directory
//! changed.

use vstd::prelude::*;
use crate::compile::{day_path, day_path_spec};
use crate::documents::{
    done_text_of, eri_of_project, eri_of_record, eri_of_tag, law_project_roundtrip, law_record_roundtrip,
    law_tag_roundtrip, project_of_eri, record_of_eri, tag_of_eri, EriError,
};
use crate::eri::Eri;
use crate::ids::{
    is_nanoid_char, removed_from_file_names, is_uuid_v7_text, nanoid_text, sanitize_file_name, sanitized, uuid_millis,
    uuid_secs, uuidv7_from_datetime,
};
use crate::numbers::{parse_u64, parse_u64_spec};
use crate::paths::{
    dir_form, extension, has_parent, join, lemma_components_have_parent, lemma_join_file,
    lemma_last_is_component, parent, parent_of, path_has_parent, path_join, paths_equal, same_path,
};
use crate::text::{chars_of, concat, trim, trim_spec};
use crate::time::{in_four_digit_years, rfc3339_parse, rfc3339_text, TimeParseError};
use crate::types::{
    colors_view, opt_project_view, opt_str_view, tag_ids_view, Color, Date, Event, EventV,
    Project, ProjectId, ProjectState, ProjectV, Record, RecordId, RecordV, Tag, TagId, TagV,
    Timestamp,
};

verus! {

broadcast use vstd::string::group_string_axioms;

// ---------------------------------------------------------------- clocks

/// The value of a clock file: its text without surrounding white space read
/// as an unsigned number; 0 where the file is missing or does not hold one.
pub open spec fn clock_value(text: Option<Seq<char>>) -> nat {
    match text {
        None => 0,
        Some(s) => match parse_u64_spec(trim_spec(s)) {
            Some(n) => n as nat,
            None => 0,
        },
    }
}

/// The next value of a clock whose file holds `text` (`None` where it could
/// not be read): one more than its value.
pub fn next_clock(text: Option<String>) -> (n: u64)
    requires
        clock_value(opt_str_view(text)) < u64::MAX,
    ensures
        n == clock_value(opt_str_view(text)) + 1,
{
    match text {
        None => 1,
        Some(s) => {
            let t = trim(s.as_str());
            let v = chars_of(t.as_str());
            match parse_u64(&v) {
                Some(n) => n + 1,
                None => 1,
            }
        },
    }
}

/// Whether a text ends with another.
pub open spec fn ends_with(s: Seq<char>, suffix: Seq<char>) -> bool {
    s.len() >= suffix.len() && s.subrange(s.len() - suffix.len(), s.len() as int) == suffix
}

/// Whether a path names a device's clock file: one that ends in "-clock.txt"
/// (records and projects) or ".clock" (tags).
pub open spec fn is_clock_path(p: Seq<char>) -> bool {
    ends_with(p, dash_clock()) || ends_with(p, dot_clock())
}

fn ends_with_str(s: &Vec<char>, suffix: &Vec<char>) -> (b: bool)
    ensures
        b == ends_with(s@, suffix@),
{
    if s.len() < suffix.len() {
        return false;
    }
    let n = s.len();
    let off = n - suffix.len();
    let mut i: usize = 0;
    while i < suffix.len()
        invariant
            n == s@.len(),
            off == s@.len() - suffix@.len(),
            s@.len() >= suffix@.len(),
            i <= suffix@.len(),
            forall|j: int| 0 <= j < i ==> s@[off + j] == suffix@[j],
        decreases suffix@.len() - i,
    {
        if s[off + i] != suffix[i] {
            proof {
                assert(s@.subrange(off as int, s@.len() as int)[i as int] != suffix@[i as int]);
            }
            return false;
        }
        i = i + 1;
    }
    proof {
        assert(s@.subrange(off as int, s@.len() as int) =~= suffix@);
    }
    true
}

/// Whether a path names a device's clock file.
pub fn clock_path(path: &str) -> (b: bool)
    ensures
        b == is_clock_path(path@),
{
    proof {
        reveal_strlit("-clock.txt");
        reveal_strlit(".clock");
    }
    let v = chars_of(path);
    let a = chars_of("-clock.txt");
    let b = chars_of(".clock");
    ends_with_str(&v, &a) || ends_with_str(&v, &b)
}

/// The sum of the values of the clock files of a directory.
pub open spec fn clocks_total(texts: Seq<Option<Seq<char>>>) -> nat
    decreases texts.len(),
{
    if texts.len() == 0 {
        0
    } else {
        clocks_total(texts.drop_last()) + clock_value(texts.last())
    }
}

/// The views of optional strings.
pub open spec fn opt_strs_v(s: Seq<Option<String>>) -> Seq<Option<Seq<char>>> {
    s.map_values(|o: Option<String>| opt_str_view(o))
}

/// The clock of a directory from what its clock files hold (`None` for one
/// that could not be read): the sum of their values, held at the largest
/// `u64`.
pub fn sum_clocks(texts: &Vec<Option<String>>) -> (c: u64)
    ensures
        c == if clocks_total(opt_strs_v(texts@)) > u64::MAX {
            u64::MAX as nat
        } else {
            clocks_total(opt_strs_v(texts@))
        },
{
    let ghost tv = opt_strs_v(texts@);
    let mut total: u64 = 0;
    let mut i: usize = 0;
    while i < texts.len()
        invariant
            i <= texts@.len(),
            tv == opt_strs_v(texts@),
            total == if clocks_total(tv.subrange(0, i as int)) > u64::MAX {
                u64::MAX as nat
            } else {
                clocks_total(tv.subrange(0, i as int))
            },
        decreases texts@.len() - i,
    {
        proof {
            assert(tv.subrange(0, i + 1).drop_last() =~= tv.subrange(0, i as int));
            assert(tv.subrange(0, i + 1).last() == opt_str_view(texts@[i as int]));
        }
        let v: u64 = match &texts[i] {
            None => 0,
            Some(s) => {
                let t = trim(s.as_str());
                let cs = chars_of(t.as_str());
                match parse_u64(&cs) {
                    Some(n) => n,
                    None => 0,
                }
            },
        };
        total = total.saturating_add(v);
        i = i + 1;
    }
    proof {
        assert(tv.subrange(0, texts@.len() as int) =~= tv);
    }
    total
}

// ---------------------------------------------------------------- where files go

/// The name of a document file: the sanitized name, the identifier and the
/// sanitized device, joined by '-', with the extension "eri".
pub open spec fn stem_text(n: Seq<char>, id: Seq<char>, d: Seq<char>) -> Seq<char> {
    n + seq!['-'] + id + seq!['-'] + d + ".eri"@
}

/// The end of the name of a clock file of the records and projects
/// directories.
pub open spec fn dash_clock() -> Seq<char> {
    "-clock.txt"@
}

/// The end of the name of a clock file of the tags directory.
pub open spec fn dot_clock() -> Seq<char> {
    ".clock"@
}

/// The clock and document paths in `dir` for the sanitized name `n` and
/// sanitized device `d`.
pub open spec fn placed_with(
    dir: Seq<char>,
    n: Seq<char>,
    id: Seq<char>,
    d: Seq<char>,
    suffix: Seq<char>,
    clock: Seq<char>,
    file: Seq<char>,
) -> bool {
    &&& clock == path_join(dir, d + suffix)
    &&& file == path_join(dir, stem_text(n, id, d))
}

/// The clock and document paths in `dir` for a name, identifier and device,
/// with the name and the device made safe by sanitize-filename.
pub open spec fn placed(
    dir: Seq<char>,
    name: Seq<char>,
    id: Seq<char>,
    device: Seq<char>,
    suffix: Seq<char>,
    clock: Seq<char>,
    file: Seq<char>,
) -> bool {
    exists|n: Seq<char>, d: Seq<char>|
        #![trigger sanitized(n, name), sanitized(d, device)]
        sanitized(n, name) && sanitized(d, device) && placed_with(dir, n, id, d, suffix, clock, file)
}

/// One write of a document: the directory to create, the clock file in it
/// to bump, the file to write and what it holds.
pub struct FileWrite {
    pub dir: String,
    pub clock: String,
    pub file: String,
    pub document: Eri,
}

/// A rewrite of a document that may move it: the write, the clock of the
/// directory it left (where that differs), and the old file to remove
/// (where the new file is another one).
pub struct Modification {
    pub write: FileWrite,
    pub old_clock: Option<String>,
    pub remove: Option<String>,
}

fn file_stem(n: &String, id: &str, d: &String) -> (r: String)
    ensures
        r@ == stem_text(n@, id@, d@),
{
    let a = concat(n.as_str(), "-");
    let b = concat(a.as_str(), id);
    let c = concat(b.as_str(), "-");
    let e = concat(c.as_str(), d.as_str());
    let f = concat(e.as_str(), ".eri");
    proof {
        reveal_strlit("-");
        assert(f@ =~= stem_text(n@, id@, d@));
    }
    f
}

/// The clock and document paths, with the sanitized device.
fn place(dir: &String, name: &str, id: &str, device: &str, suffix: &str) -> (r: (String, String, String))
    ensures
        sanitized(r.2@, device@),
        placed(dir@, name@, id@, device@, suffix@, r.0@, r.1@),
        exists|n: Seq<char>|
            #![trigger sanitized(n, name@)]
            sanitized(n, name@) && placed_with(dir@, n, id@, r.2@, suffix@, r.0@, r.1@),
{
    let d = sanitize_file_name(device);
    let n = sanitize_file_name(name);
    let clock_name = concat(d.as_str(), suffix);
    let clock = join(dir.as_str(), clock_name.as_str());
    let stem = file_stem(&n, id, &d);
    let file = join(dir.as_str(), stem.as_str());
    proof {
        assert(placed_with(dir@, n@, id@, d@, suffix@, clock@, file@));
        assert(sanitized(n@, name@) && sanitized(d@, device@));
    }
    (clock, file, d)
}

// ---------------------------------------------------------------- what is written

/// The name that a record's file is named after: the activity of a start,
/// the optional name of a stop, or "untracked".
pub open spec fn event_stem(ev: EventV) -> Seq<char> {
    match ev {
        EventV::Active { name, .. } => name,
        EventV::Inactive { name } => match name {
            Some(n) => n,
            None => "untracked"@,
        },
    }
}

/// Whether chrono can write the start of a record and name its day.
pub open spec fn record_writable(base: Seq<char>, t: Timestamp) -> bool {
    &&& rfc3339_text(t.secs, t.nanos) is Some
    &&& day_path_spec(base, Date { days: t.spec_day() as i64 }) is Some
}

/// The write of a record by a device: into the directory of its day
/// (`base/YYYY/MM/DD`), under the device's clock, holding the record's
/// document (schema "horologium:event"), which reads back as the record
/// where its start falls in the years 0000 to 9999.
pub open spec fn written_record(base: Seq<char>, device: Seq<char>, rec: RecordV, w: FileWrite) -> bool {
    &&& day_path_spec(base, Date { days: rec.start.spec_day() as i64 }) == Some(w.dir@)
    &&& rfc3339_text(rec.start.secs, rec.start.nanos) matches Some(t) && w.document@ == eri_of_record(
        rec,
        t,
    )
    &&& placed(w.dir@, event_stem(rec.event), rec.id, device, dash_clock(), w.clock@, w.file@)
    &&& in_four_digit_years(rec.start.secs) ==> record_of_eri(w.document@) == Ok::<RecordV, EriError>(rec)
}

/// The write of a tag by a device: into the tags directory, under the
/// device's clock of that directory.
pub open spec fn written_tag(base: Seq<char>, device: Seq<char>, t: TagV, w: FileWrite) -> bool {
    &&& w.dir@ == path_join(base, "Tags"@)
    &&& w.document@ == eri_of_tag(t)
    &&& placed(w.dir@, t.name, t.id, device, dot_clock(), w.clock@, w.file@)
}

/// The write of a project by a device; a completed one has its date
/// written as `done`.
pub open spec fn written_project(base: Seq<char>, device: Seq<char>, p: ProjectV, done: Seq<char>, w: FileWrite) -> bool {
    &&& w.dir@ == path_join(base, "Projects"@)
    &&& w.document@ == eri_of_project(p, done)
    &&& placed(w.dir@, p.name, p.id, device, dash_clock(), w.clock@, w.file@)
}

/// An identifier made of a prefix and eleven URL-safe random characters.
pub open spec fn is_prefixed_id(id: Seq<char>, prefix: Seq<char>) -> bool {
    &&& id.len() == prefix.len() + 11
    &&& id.subrange(0, prefix.len() as int) == prefix
    &&& forall|i: int| prefix.len() <= i < id.len() ==> is_nanoid_char(#[trigger] id[i])
}

/// What a move of a document from `from` leaves to do besides the write:
/// remove the old file if it is another one, and bump the clock of the old
/// directory if that is another one too; paths are compared component by
/// component.
pub open spec fn moved_from(from: Seq<char>, file: Seq<char>, old_clock: Option<Seq<char>>, remove: Option<
    Seq<char>,
>, old_dir_clock: Seq<char>) -> bool {
    &&& remove == (if same_path(file, from) {
        None
    } else {
        Some(from)
    })
    &&& old_clock == (if !same_path(file, from) && !same_path(parent_of(file), parent_of(from)) {
        Some(old_dir_clock)
    } else {
        None
    })
}

/// Why a record could not be rewritten.
#[derive(Clone, Copy, PartialEq, Eq, Structural, Debug)]
pub enum ModifyError {
    /// chrono cannot write the start or name its day.
    TimeOutOfRange,
    /// The old file's path has no parent directory.
    NoParent,
}

fn new_id(prefix: &str) -> (r: String)
    ensures
        is_prefixed_id(r@, prefix@),
{
    let k = nanoid_text(11);
    let r = concat(prefix, k.as_str());
    proof {
        assert(r@.subrange(0, prefix@.len() as int) =~= prefix@);
        assert forall|i: int| prefix@.len() <= i < r@.len() implies is_nanoid_char(#[trigger] r@[i]) by {
            assert(r@[i] == k@[i - prefix@.len()]);
        }
    }
    r
}

fn event_stem_of(ev: &Event) -> (r: String)
    ensures
        r@ == event_stem(ev@),
{
    match ev {
        Event::Active { name, .. } => name.clone(),
        Event::Inactive { name } => match name {
            Some(n) => n.clone(),
            None => "untracked".to_string(),
        },
    }
}

/// Where the actions of a device write, and which device it is.
pub struct Actions {
    base_path: String,
    device_id: String,
}

impl Actions {
    /// The directory that holds the data.
    pub closed spec fn base_v(&self) -> Seq<char> {
        self.base_path@
    }

    /// The identifier of the device.
    pub closed spec fn device_v(&self) -> Seq<char> {
        self.device_id@
    }

    /// The actions of a device on the data under `base_path` (a canonical
    /// directory).
    pub fn new(base_path: String, device_id: String) -> (a: Actions)
        ensures
            a.base_v() == base_path@,
            a.device_v() == device_id@,
    {
        Actions { base_path, device_id }
    }

    /// The write of a tag into the tags directory.
    fn write_tag(&self, tag: Tag) -> (w: FileWrite)
        ensures
            written_tag(self.base_v(), self.device_v(), tag@, w),
    {
        proof {
            reveal_strlit(".clock");
        }
        let dir = join(self.base_path.as_str(), "Tags");
        let name = tag.name.clone();
        let id = tag.id.clone();
        let document = Eri::from_tag(tag);
        let (clock, file, _d) = place(&dir, name.as_str(), id.as_str(), self.device_id.as_str(), ".clock");
        FileWrite { dir, clock, file, document }
    }

    /// Defines a tag: a fresh identifier "tag_" and eleven random
    /// characters, written into the tags directory.
    pub fn define_tag(&self, name: String, color: Vec<Color>) -> (r: (TagId, FileWrite))
        ensures
            is_prefixed_id(r.0.id@, "tag_"@),
            r.0.name@ == name@,
            written_tag(
                self.base_v(),
                self.device_v(),
                TagV { id: r.0.id@, name: name@, color: colors_view(color@) },
                r.1,
            ),
    {
        let id = new_id("tag_");
        let tag = Tag { id: id.clone(), name: name.clone(), color };
        let w = self.write_tag(tag);
        (TagId { id, name }, w)
    }

    /// Rewrites a tag that was read from `from`, under the name it now has.
    pub fn modify_tags(&self, from: String, tags: Tag) -> (r: (TagId, Modification))
        ensures
            r.0.id@ == tags.id@,
            r.0.name@ == tags.name@,
            written_tag(self.base_v(), self.device_v(), tags@, r.1.write),
            r.1.old_clock is None,
            opt_str_view(r.1.remove) == (if same_path(r.1.write.file@, from@) {
                None
            } else {
                Some(from@)
            }),
    {
        let id = tags.id.clone();
        let name = tags.name.clone();
        let w = self.write_tag(tags);
        let remove = if paths_equal(w.file.as_str(), from.as_str()) {
            None
        } else {
            Some(from)
        };
        (TagId { id, name }, Modification { write: w, old_clock: None, remove })
    }

    /// The write of a project into the projects directory, or
    /// `TimeOutOfRange` where chrono cannot write its completion date.
    fn write_project(&self, project: Project) -> (r: Result<FileWrite, EriError>)
        ensures
            match project.state {
                ProjectState::Active => r matches Ok(w) && written_project(
                    self.base_v(),
                    self.device_v(),
                    project@,
                    seq![],
                    w,
                ),
                ProjectState::Done { completed_date } => match done_text_of(completed_date) {
                    Some(t) => r matches Ok(w) && written_project(self.base_v(), self.device_v(), project@, t, w),
                    None => r matches Err(e) && e == EriError::TimeOutOfRange,
                },
            },
    {
        proof {
            reveal_strlit("-clock.txt");
        }
        let dir = join(self.base_path.as_str(), "Projects");
        let name = project.name.clone();
        let id = project.id.clone();
        let document = match Eri::from_project(project) {
            Ok(e) => e,
            Err(e) => return Err(e),
        };
        let (clock, file, _d) = place(&dir, name.as_str(), id.as_str(), self.device_id.as_str(), "-clock.txt");
        Ok(FileWrite { dir, clock, file, document })
    }

    /// Defines an active project: a fresh identifier "proj_" and eleven
    /// random characters, written into the projects directory.
    pub fn define_project(&self, name: String, color: Vec<Color>, body: Option<String>) -> (r: (
        ProjectId,
        FileWrite,
    ))
        ensures
            is_prefixed_id(r.0.id@, "proj_"@),
            r.0.name@ == name@,
            written_project(
                self.base_v(),
                self.device_v(),
                ProjectV {
                    id: r.0.id@,
                    name: name@,
                    state: ProjectState::Active,
                    color: colors_view(color@),
                    body: opt_str_view(body),
                },
                seq![],
                r.1,
            ),
    {
        let id = new_id("proj_");
        let project = Project {
            id: id.clone(),
            name: name.clone(),
            state: ProjectState::Active,
            color,
            body,
        };
        match self.write_project(project) {
            Ok(w) => (ProjectId { id, name }, w),
            Err(_) => vstd::pervasive::unreached(),
        }
    }

    /// Rewrites a project that was read from `from`, under the name it now
    /// has, or `TimeOutOfRange` where chrono cannot write its completion
    /// date.
    pub fn modify_project(&self, from: String, project: Project) -> (r: Result<(ProjectId, Modification), EriError>)
        ensures
            match r {
                Ok((id, m)) => {
                    &&& id.id@ == project.id@ && id.name@ == project.name@
                    &&& written_project(
                        self.base_v(),
                        self.device_v(),
                        project@,
                        match project.state {
                            ProjectState::Done { completed_date } => done_text_of(completed_date)->0,
                            ProjectState::Active => seq![],
                        },
                        m.write,
                    )
                    &&& m.old_clock is None
                    &&& opt_str_view(m.remove) == (if same_path(m.write.file@, from@) {
                        None
                    } else {
                        Some(from@)
                    })
                },
                Err(e) => e == EriError::TimeOutOfRange,
            },
            r is Err <==> (project.state matches ProjectState::Done { completed_date } && done_text_of(
                completed_date,
            ) is None),
    {
        let id = project.id.clone();
        let name = project.name.clone();
        let w = match self.write_project(project) {
            Ok(w) => w,
            Err(e) => return Err(e),
        };
        let remove = if paths_equal(w.file.as_str(), from.as_str()) {
            None
        } else {
            Some(from)
        };
        Ok((ProjectId { id, name }, Modification { write: w, old_clock: None, remove }))
    }

    /// The write of a record, or `TimeOutOfRange` where chrono cannot write
    /// its start or name its day.
    fn write_record(&self, record: Record) -> (r: Result<FileWrite, EriError>)
        ensures
            match r {
                Ok(w) => written_record(self.base_v(), self.device_v(), record@, w),
                Err(e) => e == EriError::TimeOutOfRange && !record_writable(self.base_v(), record.start),
            },
            r is Ok <==> record_writable(self.base_v(), record.start),
    {
        let ghost rv = record@;
        let day = record.start.utc_date();
        let dir = match day_path(self.base_path.as_str(), &day) {
            Some(d) => d,
            None => return Err(EriError::TimeOutOfRange),
        };
        let stem = event_stem_of(&record.event);
        let id = record.id.0.clone();
        let document = match Eri::from_record(record) {
            Ok(e) => e,
            Err(e) => return Err(e),
        };
        proof {
            reveal_strlit("-clock.txt");
        }
        let (clock, file, _d) = place(&dir, stem.as_str(), id.as_str(), self.device_id.as_str(), "-clock.txt");
        Ok(FileWrite { dir, clock, file, document })
    }

    /// Starts tracking an activity at `start_time`: a start record with a
    /// fresh version 7 UUID, written into the directory of its day.
    pub fn start(
        &self,
        name: String,
        tags: Vec<TagId>,
        project: Option<ProjectId>,
        body: Option<String>,
        start_time: Timestamp,
    ) -> (r: Result<(RecordId, FileWrite), EriError>)
        ensures
            match r {
                Ok((id, w)) => {
                    &&& is_uuid_v7_text(id@, uuid_millis(uuid_secs(start_time), start_time.nanos))
                    &&& written_record(
                        self.base_v(),
                        self.device_v(),
                        RecordV {
                            id: id@,
                            start: start_time,
                            event: EventV::Active {
                                name: name@,
                                tags: tag_ids_view(tags@),
                                project: opt_project_view(project),
                            },
                            body: opt_str_view(body),
                        },
                        w,
                    )
                },
                Err(e) => e == EriError::TimeOutOfRange,
            },
            r is Ok <==> record_writable(self.base_v(), start_time),
    {
        let id = uuidv7_from_datetime(&start_time);
        let event = Event::Active { name, tags, project };
        let record = Record { id: RecordId(id.clone()), start: start_time, event, body };
        match self.write_record(record) {
            Ok(w) => Ok((RecordId(id), w)),
            Err(e) => Err(e),
        }
    }

    /// Stops tracking at `start_time`: a stop record with a fresh version 7
    /// UUID, written into the directory of its day.
    pub fn stop(&self, name: Option<String>, body: Option<String>, start_time: Timestamp) -> (r: Result<
        (RecordId, FileWrite),
        EriError,
    >)
        ensures
            match r {
                Ok((id, w)) => {
                    &&& is_uuid_v7_text(id@, uuid_millis(uuid_secs(start_time), start_time.nanos))
                    &&& written_record(
                        self.base_v(),
                        self.device_v(),
                        RecordV {
                            id: id@,
                            start: start_time,
                            event: EventV::Inactive { name: opt_str_view(name) },
                            body: opt_str_view(body),
                        },
                        w,
                    )
                },
                Err(e) => e == EriError::TimeOutOfRange,
            },
            r is Ok <==> record_writable(self.base_v(), start_time),
    {
        let id = uuidv7_from_datetime(&start_time);
        let event = Event::Inactive { name };
        let record = Record { id: RecordId(id.clone()), start: start_time, event, body };
        match self.write_record(record) {
            Ok(w) => Ok((RecordId(id), w)),
            Err(e) => Err(e),
        }
    }

    /// Rewrites a record that was read from `from`, moving it where its
    /// start and name now put it.
    pub fn modify_record(&self, from: String, record: Record) -> (r: Result<(RecordId, Modification), ModifyError>)
        ensures
            match r {
                Ok((id, m)) => {
                    &&& id@ == record.id@
                    &&& written_record(self.base_v(), self.device_v(), record@, m.write)
                    &&& exists|d: Seq<char>|
                        #![trigger sanitized(d, self.device_v())]
                        sanitized(d, self.device_v()) && m.write.clock@ == path_join(
                            m.write.dir@,
                            d + dash_clock(),
                        ) && moved_from(
                            from@,
                            m.write.file@,
                            opt_str_view(m.old_clock),
                            opt_str_view(m.remove),
                            path_join(parent_of(from@), d + dash_clock()),
                        )
                },
                Err(ModifyError::TimeOutOfRange) => !record_writable(self.base_v(), record.start),
                Err(ModifyError::NoParent) => record_writable(self.base_v(), record.start) && !has_parent(
                    from@,
                ),
            },
            r is Ok <==> record_writable(self.base_v(), record.start) && has_parent(from@),
    {
        let ghost rv = record@;
        let day = record.start.utc_date();
        let dir = match day_path(self.base_path.as_str(), &day) {
            Some(d) => d,
            None => return Err(ModifyError::TimeOutOfRange),
        };
        let stem = event_stem_of(&record.event);
        let id = record.id.0.clone();
        let document = match Eri::from_record(record) {
            Ok(e) => e,
            Err(_) => return Err(ModifyError::TimeOutOfRange),
        };
        proof {
            reveal_strlit("-clock.txt");
        }
        let (clock, file, d) = place(&dir, stem.as_str(), id.as_str(), self.device_id.as_str(), "-clock.txt");
        let ghost dv = d@;
        proof {
            reveal_strlit(".eri");
            let n = choose|n: Seq<char>|
                sanitized(n, stem@) && placed_with(dir@, n, id@, dv, "-clock.txt"@, clock@, file@);
            let f = stem_text(n, id@, dv);
            assert(path_join(dir@, f).last() == f.last());
            assert(file@.last() == 'i');
            lemma_last_is_component(file@);
            assert(clock@ == path_join(dir@, dv + dash_clock()));
            assert(sanitized(dv, self.device_v()));
        }
        if paths_equal(file.as_str(), from.as_str()) {
            proof {
                lemma_components_have_parent(from@);
            }
            let w = FileWrite { dir, clock, file, document };
            let m = Modification { write: w, old_clock: None, remove: None };
            return Ok((RecordId(id), m));
        }
        if !path_has_parent(from.as_str()) {
            return Err(ModifyError::NoParent);
        }
        let old_dir = parent(from.as_str());
        let new_dir = parent(file.as_str());
        let old_clock = if !paths_equal(new_dir.as_str(), old_dir.as_str()) {
            let name = concat(d.as_str(), "-clock.txt");
            Some(join(old_dir.as_str(), name.as_str()))
        } else {
            None
        };
        let w = FileWrite { dir, clock, file, document };
        let m = Modification { write: w, old_clock, remove: Some(from) };
        Ok((RecordId(id), m))
    }
}

// ---------------------------------------------------------------- laws

/// A name made of the sanitized name, the identifier and the sanitized
/// device holds no '/' where the identifier holds none.
proof fn lemma_stem_no_slash(n: Seq<char>, name: Seq<char>, id: Seq<char>, d: Seq<char>, device: Seq<char>)
    requires
        sanitized(n, name),
        sanitized(d, device),
        forall|i: int| 0 <= i < id.len() ==> #[trigger] id[i] != '/',
    ensures
        forall|i: int| 0 <= i < stem_text(n, id, d).len() ==> #[trigger] stem_text(n, id, d)[i] != '/',
        forall|i: int| 0 <= i < (d + dash_clock()).len() ==> #[trigger] (d + dash_clock())[i] != '/',
        forall|i: int| 0 <= i < (d + dot_clock()).len() ==> #[trigger] (d + dot_clock())[i] != '/',
{
    reveal_strlit(".eri");
    reveal_strlit("-clock.txt");
    reveal_strlit(".clock");
    let s = stem_text(n, id, d);
    assert forall|i: int| 0 <= i < s.len() implies #[trigger] s[i] != '/' by {
        if i < n.len() {
            assert(s[i] == n[i]);
            assert(!removed_from_file_names(n[i]));
        } else if i == n.len() {
        } else if i < n.len() + 1 + id.len() {
            assert(s[i] == id[i - n.len() - 1]);
        } else if i == n.len() + 1 + id.len() {
        } else if i < n.len() + 2 + id.len() + d.len() {
            assert(s[i] == d[i - n.len() - 2 - id.len()]);
            assert(!removed_from_file_names(d[i - n.len() - 2 - id.len()]));
        } else {
        }
    }
    assert forall|i: int| 0 <= i < (d + dash_clock()).len() implies #[trigger] (d + dash_clock())[i] != '/' by {
        if i < d.len() {
            assert(!removed_from_file_names(d[i]));
        }
    }
    assert forall|i: int| 0 <= i < (d + dot_clock()).len() implies #[trigger] (d + dot_clock())[i] != '/' by {
        if i < d.len() {
            assert(!removed_from_file_names(d[i]));
        }
    }
}

/// A file that an action writes is an ".eri" file, the kind that
/// compilation reads, and it lies in the directory whose clock the action
/// bumps; both lie in the directory written to. (Where the identifier holds
/// no '/'; those that the actions make never do.)
pub proof fn law_written_file_is_compiled(
    dir: Seq<char>,
    name: Seq<char>,
    id: Seq<char>,
    device: Seq<char>,
    suffix: Seq<char>,
    clock: Seq<char>,
    file: Seq<char>,
)
    requires
        placed(dir, name, id, device, suffix, clock, file),
        suffix == dash_clock() || suffix == dot_clock(),
        forall|i: int| 0 <= i < id.len() ==> #[trigger] id[i] != '/',
    ensures
        extension(file) == Some("eri"@),
        parent_of(file) == dir_form(dir),
        parent_of(clock) == dir_form(dir),
{
    reveal_strlit(".eri");
    reveal_strlit("eri");
    reveal_strlit("-clock.txt");
    reveal_strlit(".clock");
    let (n, d) = choose|n: Seq<char>, d: Seq<char>|
        sanitized(n, name) && sanitized(d, device) && placed_with(dir, n, id, d, suffix, clock, file);
    lemma_stem_no_slash(n, name, id, d, device);
    let s = stem_text(n, id, d);
    assert(s.len() >= 5);
    assert(s != seq!['.', '.']);
    lemma_join_file(dir, s);
    let c = d + suffix;
    assert(c.len() >= 6);
    assert(c != seq!['.', '.']);
    lemma_join_file(dir, c);
    let k: int = s.len() - 4;
    assert(s[k] == '.');
    assert(s[k + 1] == 'e' && s[k + 2] == 'r' && s[k + 3] == 'i');
    crate::paths::lemma_last_index(s, '.', k);
    assert(s.subrange(k + 1, s.len() as int) =~= "eri"@);
}

/// The document that a start or stop writes reads back as the record it was
/// written for, under the schema "horologium:event", wherever chrono reads
/// the written start back as the start (as it does for the years 0000 to
/// 9999, which the write itself states).
pub proof fn law_written_record_reads_back(base: Seq<char>, device: Seq<char>, rec: RecordV, w: FileWrite)
    requires
        written_record(base, device, rec, w),
        rfc3339_parse(rfc3339_text(rec.start.secs, rec.start.nanos)->0) == Ok::<
            (i64, u32),
            TimeParseError,
        >((rec.start.secs, rec.start.nanos)),
    ensures
        w.document@.schema == "horologium:event"@,
        record_of_eri(w.document@) == Ok::<RecordV, EriError>(rec),
{
    law_record_roundtrip(rec, rfc3339_text(rec.start.secs, rec.start.nanos)->0);
}

/// The document that a tag definition or rewrite writes reads back as the
/// tag, under the schema that compilation reads as a tag.
pub proof fn law_written_tag_reads_back(base: Seq<char>, device: Seq<char>, t: TagV, w: FileWrite)
    requires
        written_tag(base, device, t, w),
    ensures
        w.document@.schema == "horologium:tag"@,
        tag_of_eri(w.document@) == Ok::<TagV, EriError>(t),
{
    law_tag_roundtrip(t);
}

/// The document that a project definition or rewrite writes reads back as
/// the project, under the schema that compilation reads as a project,
/// wherever chrono reads a completion date back as midnight of its day.
pub proof fn law_written_project_reads_back(
    base: Seq<char>,
    device: Seq<char>,
    p: ProjectV,
    done: Seq<char>,
    w: FileWrite,
)
    requires
        written_project(base, device, p, done, w),
        p.state matches ProjectState::Done { completed_date } ==> rfc3339_parse(done) == Ok::<
            (i64, u32),
            TimeParseError,
        >(((completed_date.days * 86400) as i64, 0u32)) && i64::MIN <= completed_date.days * 86400 <= i64::MAX,
    ensures
        w.document@.schema == "horologium:project"@,
        project_of_eri(w.document@) == Ok::<ProjectV, EriError>(p),
{
    law_project_roundtrip(p, done);
}

} // verus!
