//! Resolving what a user typed: tag and project names against the known
//! ones, a body that asks for an editor, and the range of records to list.
//!
//! Which known names are close to a typed name is measured in floating point
//! (Jaro-Winkler similarity above 0.8); the functions here take the outcome
//! of that measure as booleans and decide from it.

use vstd::prelude::*;
use crate::text::{trim, trim_spec};
use crate::time::{parse_datetime, rfc3339_parse, TimeParseError};
use crate::types::{IdV, ProjectId, TagId, Timestamp, opt_str_view, tag_ids_view};

verus! {

broadcast use vstd::string::group_string_axioms;

// ---------------------------------------------------------------- errors

/// Why a typed tag or project name could not be resolved.
#[derive(Debug)]
pub enum ResolveError {
    /// No known tag is close to the name.
    UnknownTag { candidate: String },
    /// Several known tags are close to the name; their names, in order.
    AmbiguousTag { candidate: String, matches: Vec<String> },
    /// No active project is close to the name.
    UnknownProject { candidate: String },
    /// Several active projects are close to the name; their names, in order.
    AmbiguousProject { candidate: String, matches: Vec<String> },
}

/// The view of a resolution error.
pub enum ResolveErrorV {
    UnknownTag { candidate: Seq<char> },
    AmbiguousTag { candidate: Seq<char>, matches: Seq<Seq<char>> },
    UnknownProject { candidate: Seq<char> },
    AmbiguousProject { candidate: Seq<char>, matches: Seq<Seq<char>> },
}

impl View for ResolveError {
    type V = ResolveErrorV;

    open spec fn view(&self) -> ResolveErrorV {
        match self {
            ResolveError::UnknownTag { candidate } => ResolveErrorV::UnknownTag { candidate: candidate@ },
            ResolveError::AmbiguousTag { candidate, matches } => ResolveErrorV::AmbiguousTag {
                candidate: candidate@,
                matches: matches@.map_values(|s: String| s@),
            },
            ResolveError::UnknownProject { candidate } => ResolveErrorV::UnknownProject {
                candidate: candidate@,
            },
            ResolveError::AmbiguousProject { candidate, matches } => ResolveErrorV::AmbiguousProject {
                candidate: candidate@,
                matches: matches@.map_values(|s: String| s@),
            },
        }
    }
}

// ---------------------------------------------------------------- specification

/// The first known entry with exactly this name.
pub open spec fn first_named(known: Seq<IdV>, name: Seq<char>) -> Option<IdV>
    decreases known.len(),
{
    if known.len() == 0 {
        None
    } else if known[0].name == name {
        Some(known[0])
    } else {
        first_named(known.drop_first(), name)
    }
}

/// The known entries marked as close, in order.
pub open spec fn close_ones(known: Seq<IdV>, close: Seq<bool>) -> Seq<IdV>
    decreases known.len(),
{
    if known.len() == 0 {
        seq![]
    } else {
        let rest = close_ones(known.drop_last(), close);
        if close[known.len() - 1] {
            rest.push(known.last())
        } else {
            rest
        }
    }
}

/// The names of entries.
pub open spec fn names_of(s: Seq<IdV>) -> Seq<Seq<char>> {
    s.map_values(|e: IdV| e.name)
}

/// What one typed tag name adds to the resolved tags: the tag with exactly
/// that name, if any, and then the single close tag. No close tag, or
/// several, is an error.
pub open spec fn resolve_tag_spec(candidate: Seq<char>, known: Seq<IdV>, close: Seq<bool>) -> Result<
    Seq<IdV>,
    ResolveErrorV,
> {
    let exact = match first_named(known, candidate) {
        Some(t) => seq![t],
        None => seq![],
    };
    let m = close_ones(known, close);
    if m.len() == 0 {
        Err(ResolveErrorV::UnknownTag { candidate })
    } else if m.len() == 1 {
        Ok(exact.push(m[0]))
    } else {
        Err(ResolveErrorV::AmbiguousTag { candidate, matches: names_of(m) })
    }
}

/// The tags resolved from typed names, in order; the first name that fails
/// gives the error.
pub open spec fn resolve_tags_spec(candidates: Seq<Seq<char>>, known: Seq<IdV>, close: Seq<Seq<bool>>) -> Result<
    Seq<IdV>,
    ResolveErrorV,
>
    decreases candidates.len(),
{
    if candidates.len() == 0 {
        Ok(seq![])
    } else {
        let n = candidates.len() - 1;
        match resolve_tags_spec(candidates.drop_last(), known, close.subrange(0, n)) {
            Err(e) => Err(e),
            Ok(acc) => match resolve_tag_spec(candidates.last(), known, close[n]) {
                Err(e) => Err(e),
                Ok(more) => Ok(acc + more),
            },
        }
    }
}

/// The project a typed name resolves to: the first active project with
/// exactly that name, else the single close one.
pub open spec fn resolve_project_spec(candidate: Seq<char>, known: Seq<IdV>, close: Seq<bool>) -> Result<
    IdV,
    ResolveErrorV,
> {
    match first_named(known, candidate) {
        Some(p) => Ok(p),
        None => {
            let m = close_ones(known, close);
            if m.len() == 0 {
                Err(ResolveErrorV::UnknownProject { candidate })
            } else if m.len() == 1 {
                Ok(m[0])
            } else {
                Err(ResolveErrorV::AmbiguousProject { candidate, matches: names_of(m) })
            }
        },
    }
}

/// The views of the strings.
pub open spec fn strings_v(s: Seq<String>) -> Seq<Seq<char>> {
    s.map_values(|x: String| x@)
}

/// The views of the rows of booleans.
pub open spec fn rows_v(s: Seq<Vec<bool>>) -> Seq<Seq<bool>> {
    s.map_values(|x: Vec<bool>| x@)
}

/// The views of project identifiers.
pub open spec fn project_ids_view(s: Seq<ProjectId>) -> Seq<IdV> {
    s.map_values(|p: ProjectId| p@)
}

// ---------------------------------------------------------------- implementation

fn find_named_tag(known: &Vec<TagId>, name: &String) -> (r: Option<TagId>)
    ensures
        match first_named(tag_ids_view(known@), name@) {
            Some(t) => r matches Some(x) && x@ == t,
            None => r.is_none(),
        },
{
    let ghost kv = tag_ids_view(known@);
    let mut i: usize = 0;
    proof {
        assert(kv.subrange(0, kv.len() as int) =~= kv);
    }
    while i < known.len()
        invariant
            i <= known@.len(),
            kv == tag_ids_view(known@),
            first_named(kv, name@) == first_named(kv.subrange(i as int, kv.len() as int), name@),
        decreases known@.len() - i,
    {
        let ghost rest = kv.subrange(i as int, kv.len() as int);
        proof {
            assert(rest.drop_first() =~= kv.subrange(i + 1, kv.len() as int));
            assert(rest[0] == known@[i as int]@);
        }
        if known[i].name == *name {
            return Some(known[i].duplicate());
        }
        i = i + 1;
    }
    proof {
        assert(kv.subrange(known@.len() as int, kv.len() as int) =~= Seq::<IdV>::empty());
    }
    None
}

fn close_tags(known: &Vec<TagId>, close: &Vec<bool>) -> (r: Vec<TagId>)
    requires
        close@.len() == known@.len(),
    ensures
        tag_ids_view(r@) == close_ones(tag_ids_view(known@), close@),
{
    let ghost kv = tag_ids_view(known@);
    let mut r: Vec<TagId> = Vec::new();
    let mut i: usize = 0;
    while i < known.len()
        invariant
            i <= known@.len(),
            close@.len() == known@.len(),
            kv == tag_ids_view(known@),
            tag_ids_view(r@) == close_ones(kv.subrange(0, i as int), close@),
        decreases known@.len() - i,
    {
        proof {
            assert(kv.subrange(0, i + 1).drop_last() =~= kv.subrange(0, i as int));
        }
        if close[i] {
            let ghost before = tag_ids_view(r@);
            r.push(known[i].duplicate());
            proof {
                assert(tag_ids_view(r@) =~= before.push(known@[i as int]@));
            }
        }
        i = i + 1;
    }
    proof {
        assert(kv.subrange(0, known@.len() as int) =~= kv);
    }
    r
}

fn tag_names(tags: &Vec<TagId>) -> (r: Vec<String>)
    ensures
        strings_v(r@) == names_of(tag_ids_view(tags@)),
{
    let mut r: Vec<String> = Vec::new();
    let mut i: usize = 0;
    while i < tags.len()
        invariant
            i <= tags@.len(),
            strings_v(r@) == names_of(tag_ids_view(tags@)).subrange(0, i as int),
        decreases tags@.len() - i,
    {
        let ghost before = strings_v(r@);
        r.push(tags[i].name.clone());
        proof {
            assert(strings_v(r@) =~= before.push(tags@[i as int].name@));
            assert(names_of(tag_ids_view(tags@)).subrange(0, i + 1) =~= names_of(tag_ids_view(tags@)).subrange(
                0,
                i as int,
            ).push(tags@[i as int].name@));
        }
        i = i + 1;
    }
    proof {
        assert(names_of(tag_ids_view(tags@)).subrange(0, tags@.len() as int) =~= names_of(
            tag_ids_view(tags@),
        ));
    }
    r
}

/// Resolves one typed tag name; `close[j]` says whether the name of
/// `known[j]` is close to it.
fn resolve_tag(candidate: &String, known: &Vec<TagId>, close: &Vec<bool>) -> (r: Result<
    Vec<TagId>,
    ResolveError,
>)
    requires
        close@.len() == known@.len(),
    ensures
        match resolve_tag_spec(candidate@, tag_ids_view(known@), close@) {
            Ok(v) => r matches Ok(x) && tag_ids_view(x@) == v,
            Err(e) => r matches Err(x) && x@ == e,
        },
{
    let exact = find_named_tag(known, candidate);
    let m = close_tags(known, close);
    if m.len() == 0 {
        Err(ResolveError::UnknownTag { candidate: candidate.clone() })
    } else if m.len() == 1 {
        let mut out: Vec<TagId> = Vec::new();
        match exact {
            Some(t) => {
                out.push(t);
            },
            None => {},
        }
        let ghost before = tag_ids_view(out@);
        out.push(m[0].duplicate());
        proof {
            assert(tag_ids_view(out@) =~= before.push(m@[0]@));
            let exact_v = match first_named(tag_ids_view(known@), candidate@) {
                Some(t) => seq![t],
                None => Seq::<IdV>::empty(),
            };
            assert(before =~= exact_v);
        }
        Ok(out)
    } else {
        let names = tag_names(&m);
        Err(ResolveError::AmbiguousTag { candidate: candidate.clone(), matches: names })
    }
}

/// Resolves typed tag names against the known tags. `close[k][j]` says
/// whether the name of `known[j]` is close to `candidates[k]`. For each name
/// the tag with exactly that name is taken, if there is one, and then the
/// single close tag (so an exact name that is the only close one is taken
/// twice); a name with no close tag, or with several, fails.
pub fn resolve_tags(candidates: Vec<String>, known: &Vec<TagId>, close: &Vec<Vec<bool>>) -> (r: Result<
    Vec<TagId>,
    ResolveError,
>)
    requires
        close@.len() == candidates@.len(),
        forall|k: int| 0 <= k < close@.len() ==> #[trigger] close@[k]@.len() == known@.len(),
    ensures
        match resolve_tags_spec(strings_v(candidates@), tag_ids_view(known@), rows_v(close@)) {
            Ok(v) => r matches Ok(x) && tag_ids_view(x@) == v,
            Err(e) => r matches Err(x) && x@ == e,
        },
{
    let ghost cv = strings_v(candidates@);
    let ghost rv = rows_v(close@);
    let ghost kv = tag_ids_view(known@);
    let mut results: Vec<TagId> = Vec::new();
    let mut k: usize = 0;
    proof {
        assert(cv.subrange(0, 0) =~= Seq::<Seq<char>>::empty());
        assert(tag_ids_view(results@) =~= Seq::<IdV>::empty());
    }
    while k < candidates.len()
        invariant
            k <= candidates@.len(),
            close@.len() == candidates@.len(),
            forall|j: int| 0 <= j < close@.len() ==> #[trigger] close@[j]@.len() == known@.len(),
            cv == strings_v(candidates@),
            rv == rows_v(close@),
            kv == tag_ids_view(known@),
            resolve_tags_spec(cv.subrange(0, k as int), kv, rv.subrange(0, k as int)) == Ok::<
                Seq<IdV>,
                ResolveErrorV,
            >(tag_ids_view(results@)),
        decreases candidates@.len() - k,
    {
        proof {
            assert(cv.subrange(0, k + 1).drop_last() =~= cv.subrange(0, k as int));
            assert(rv.subrange(0, k + 1).subrange(0, k as int) =~= rv.subrange(0, k as int));
            assert(rv.subrange(0, k + 1)[k as int] == close@[k as int]@);
            assert(cv.subrange(0, k + 1).last() == candidates@[k as int]@);
        }
        match resolve_tag(&candidates[k], known, &close[k]) {
            Ok(more) => {
                let ghost before = tag_ids_view(results@);
                let mut i: usize = 0;
                while i < more.len()
                    invariant
                        i <= more@.len(),
                        tag_ids_view(results@) == before + tag_ids_view(more@).subrange(0, i as int),
                    decreases more@.len() - i,
                {
                    let ghost b2 = tag_ids_view(results@);
                    results.push(more[i].duplicate());
                    proof {
                        assert(tag_ids_view(results@) =~= b2.push(more@[i as int]@));
                        assert(tag_ids_view(more@).subrange(0, i + 1) =~= tag_ids_view(more@).subrange(
                            0,
                            i as int,
                        ).push(more@[i as int]@));
                    }
                    i = i + 1;
                }
                proof {
                    assert(tag_ids_view(more@).subrange(0, more@.len() as int) =~= tag_ids_view(more@));
                }
            },
            Err(e) => {
                proof {
                    lemma_resolve_tags_error(cv, kv, rv, k as int);
                }
                return Err(e);
            },
        }
        k = k + 1;
    }
    proof {
        assert(cv.subrange(0, candidates@.len() as int) =~= cv);
        assert(rv.subrange(0, candidates@.len() as int) =~= rv);
    }
    Ok(results)
}

/// An error of a name stays the error of every longer list of names.
proof fn lemma_resolve_tags_error(cv: Seq<Seq<char>>, kv: Seq<IdV>, rv: Seq<Seq<bool>>, k: int)
    requires
        0 <= k < cv.len(),
        rv.len() == cv.len(),
        resolve_tags_spec(cv.subrange(0, k), kv, rv.subrange(0, k)) is Ok,
        resolve_tag_spec(cv[k], kv, rv[k]) is Err,
    ensures
        resolve_tags_spec(cv, kv, rv) == resolve_tag_spec(cv[k], kv, rv[k]),
    decreases cv.len() - k,
{
    if k == cv.len() - 1 {
        assert(cv.drop_last() =~= cv.subrange(0, k));
        assert(rv.subrange(0, k) =~= rv.subrange(0, cv.len() - 1));
    } else {
        let n = cv.len() - 1;
        assert(cv.drop_last().subrange(0, k) =~= cv.subrange(0, k));
        assert(rv.subrange(0, n).subrange(0, k) =~= rv.subrange(0, k));
        assert(cv.drop_last()[k] == cv[k]);
        assert(rv.subrange(0, n)[k] == rv[k]);
        lemma_resolve_tags_error(cv.drop_last(), kv, rv.subrange(0, n), k);
    }
}

fn find_named_project(known: &Vec<ProjectId>, name: &String) -> (r: Option<ProjectId>)
    ensures
        match first_named(project_ids_view(known@), name@) {
            Some(t) => r matches Some(x) && x@ == t,
            None => r.is_none(),
        },
{
    let ghost kv = project_ids_view(known@);
    let mut i: usize = 0;
    proof {
        assert(kv.subrange(0, kv.len() as int) =~= kv);
    }
    while i < known.len()
        invariant
            i <= known@.len(),
            kv == project_ids_view(known@),
            first_named(kv, name@) == first_named(kv.subrange(i as int, kv.len() as int), name@),
        decreases known@.len() - i,
    {
        let ghost rest = kv.subrange(i as int, kv.len() as int);
        proof {
            assert(rest.drop_first() =~= kv.subrange(i + 1, kv.len() as int));
            assert(rest[0] == known@[i as int]@);
        }
        if known[i].name == *name {
            return Some(known[i].duplicate());
        }
        i = i + 1;
    }
    proof {
        assert(kv.subrange(known@.len() as int, kv.len() as int) =~= Seq::<IdV>::empty());
    }
    None
}

/// Resolves a typed project name against the active projects; `close[j]`
/// says whether the name of `known[j]` is close to it. A project with
/// exactly that name wins; else the single close project; no close project,
/// or several, fails.
pub fn resolve_project(candidate: String, known: &Vec<ProjectId>, close: &Vec<bool>) -> (r: Result<
    ProjectId,
    ResolveError,
>)
    requires
        close@.len() == known@.len(),
    ensures
        match resolve_project_spec(candidate@, project_ids_view(known@), close@) {
            Ok(v) => r matches Ok(x) && x@ == v,
            Err(e) => r matches Err(x) && x@ == e,
        },
{
    if let Some(p) = find_named_project(known, &candidate) {
        return Ok(p);
    }
    let ghost kv = project_ids_view(known@);
    let mut m: Vec<ProjectId> = Vec::new();
    let mut i: usize = 0;
    while i < known.len()
        invariant
            i <= known@.len(),
            close@.len() == known@.len(),
            kv == project_ids_view(known@),
            project_ids_view(m@) == close_ones(kv.subrange(0, i as int), close@),
        decreases known@.len() - i,
    {
        proof {
            assert(kv.subrange(0, i + 1).drop_last() =~= kv.subrange(0, i as int));
        }
        if close[i] {
            let ghost before = project_ids_view(m@);
            m.push(known[i].duplicate());
            proof {
                assert(project_ids_view(m@) =~= before.push(known@[i as int]@));
            }
        }
        i = i + 1;
    }
    proof {
        assert(kv.subrange(0, known@.len() as int) =~= kv);
    }
    if m.len() == 0 {
        Err(ResolveError::UnknownProject { candidate })
    } else if m.len() == 1 {
        Ok(m[0].duplicate())
    } else {
        let mut names: Vec<String> = Vec::new();
        let mut j: usize = 0;
        while j < m.len()
            invariant
                j <= m@.len(),
                strings_v(names@) == names_of(project_ids_view(m@)).subrange(0, j as int),
            decreases m@.len() - j,
        {
            let ghost before = strings_v(names@);
            names.push(m[j].name.clone());
            proof {
                assert(strings_v(names@) =~= before.push(m@[j as int].name@));
                assert(names_of(project_ids_view(m@)).subrange(0, j + 1) =~= names_of(
                    project_ids_view(m@),
                ).subrange(0, j as int).push(m@[j as int].name@));
            }
            j = j + 1;
        }
        proof {
            assert(names_of(project_ids_view(m@)).subrange(0, m@.len() as int) =~= names_of(
                project_ids_view(m@),
            ));
        }
        Err(ResolveError::AmbiguousProject { candidate, matches: names })
    }
}

// ---------------------------------------------------------------- bodies

/// The value of the body option that asks for an editor.
pub open spec fn editor_marker() -> Seq<char> {
    "__OPEN_EDITOR__"@
}

/// Where the body of a record or project comes from.
#[derive(Debug)]
pub enum BodyInput {
    /// The body is given (or absent) on the command line.
    Given(Option<String>),
    /// The body is to be written in an editor.
    FromEditor,
}

/// Decides where a body comes from: the editor marker asks for an editor,
/// anything else is the body itself.
pub fn resolve_body(body: Option<String>) -> (r: BodyInput)
    ensures
        match body {
            Some(b) => if b@ == editor_marker() {
                r is FromEditor
            } else {
                r matches BodyInput::Given(Some(x)) && x@ == b@
            },
            None => r matches BodyInput::Given(None),
        },
{
    match body {
        Some(b) => {
            let marker = "__OPEN_EDITOR__".to_string();
            if b == marker {
                BodyInput::FromEditor
            } else {
                BodyInput::Given(Some(b))
            }
        },
        None => BodyInput::Given(None),
    }
}

/// The body taken from what was written in the editor: the text without
/// leading and trailing white space.
pub fn editor_body(written: &str) -> (r: String)
    ensures
        r@ == trim_spec(written@),
{
    trim(written)
}

// ---------------------------------------------------------------- record ranges

/// Which records to list.
#[derive(Debug)]
pub enum RecordsRange {
    /// The records of the local day.
    Today,
    /// The records between two optional instants.
    Between { start: Option<Timestamp>, end: Option<Timestamp> },
}

/// Why a request to list records was refused.
#[derive(Debug)]
pub enum DisplayError {
    /// The filter is not "today".
    UnknownFilter { filter: String },
    /// "today" cannot be combined with a start or an end.
    RangeWithToday,
    /// A start or end is not an RFC 3339 date and time.
    InvalidTime { text: String, reason: TimeParseError },
}

/// The filter word that asks for today's records.
pub open spec fn today_word() -> Seq<char> {
    "today"@
}

/// The instant named by a time option: `None` where it is absent, and the
/// text with chrono's reason where it does not parse.
pub open spec fn time_option(t: Option<Seq<char>>) -> Result<Option<Timestamp>, (Seq<char>, TimeParseError)> {
    match t {
        None => Ok(None),
        Some(s) => match rfc3339_parse(s) {
            Ok((secs, nanos)) => Ok(Some(Timestamp { secs, nanos })),
            Err(k) => Err((s, k)),
        },
    }
}

/// Which records a listing request asks for, and when it is refused.
pub open spec fn records_range_spec(
    start: Option<Seq<char>>,
    end: Option<Seq<char>>,
    today: bool,
    filter: Option<Seq<char>>,
) -> Result<(bool, Option<Timestamp>, Option<Timestamp>), DisplayErrorV> {
    let filter_is_today = filter == Some(today_word());
    if today && filter is Some && !filter_is_today {
        Err(DisplayErrorV::UnknownFilter { filter: filter->0 })
    } else if today || filter_is_today {
        if start is Some || end is Some {
            Err(DisplayErrorV::RangeWithToday)
        } else {
            Ok((true, None, None))
        }
    } else if filter is Some {
        Err(DisplayErrorV::UnknownFilter { filter: filter->0 })
    } else {
        match time_option(start) {
            Err((s, k)) => Err(DisplayErrorV::InvalidTime { text: s, reason: k }),
            Ok(st) => match time_option(end) {
                Err((s, k)) => Err(DisplayErrorV::InvalidTime { text: s, reason: k }),
                Ok(en) => Ok((false, st, en)),
            },
        }
    }
}

/// The bound that a time option gives where chrono reads it: none where it
/// is absent, else the instant chrono reads from the text.
pub open spec fn read_bound(t: Option<Seq<char>>) -> Option<Timestamp> {
    match t {
        Some(s) => match rfc3339_parse(s) {
            Ok((secs, nanos)) => Some(Timestamp { secs, nanos }),
            Err(_) => None,
        },
        None => None,
    }
}

/// Whether chrono reads a time option: it is absent, or chrono reads its text.
pub open spec fn readable(t: Option<Seq<char>>) -> bool {
    match t {
        Some(s) => rfc3339_parse(s) is Ok,
        None => true,
    }
}

/// Without "today" and without a filter, a listing asks for the records
/// between the start and the end that chrono reads, each bound open where it
/// is absent; a start chrono cannot read refuses it with that text and
/// chrono's reason, and so does an end where the start was read. With
/// "today" and no bounds it asks for today's records, and "today" with a
/// bound is refused.
pub proof fn law_records_range(start: Option<Seq<char>>, end: Option<Seq<char>>)
    ensures
        readable(start) && readable(end) ==> records_range_spec(start, end, false, None) == Ok::<
            (bool, Option<Timestamp>, Option<Timestamp>),
            DisplayErrorV,
        >((false, read_bound(start), read_bound(end))),
        start matches Some(s) ==> (rfc3339_parse(s) matches Err(k) ==> records_range_spec(start, end, false, None)
            == Err::<(bool, Option<Timestamp>, Option<Timestamp>), DisplayErrorV>(
            DisplayErrorV::InvalidTime { text: s, reason: k },
        )),
        readable(start) ==> (end matches Some(e) ==> (rfc3339_parse(e) matches Err(k) ==> records_range_spec(
            start,
            end,
            false,
            None,
        ) == Err::<(bool, Option<Timestamp>, Option<Timestamp>), DisplayErrorV>(
            DisplayErrorV::InvalidTime { text: e, reason: k },
        ))),
        start is None && end is None ==> records_range_spec(start, end, true, None) == Ok::<
            (bool, Option<Timestamp>, Option<Timestamp>),
            DisplayErrorV,
        >((true, None, None)),
        start is Some || end is Some ==> records_range_spec(start, end, true, None) == Err::<
            (bool, Option<Timestamp>, Option<Timestamp>),
            DisplayErrorV,
        >(DisplayErrorV::RangeWithToday),
{
}

/// The view of a display error.
pub enum DisplayErrorV {
    UnknownFilter { filter: Seq<char> },
    RangeWithToday,
    InvalidTime { text: Seq<char>, reason: TimeParseError },
}

impl View for DisplayError {
    type V = DisplayErrorV;

    open spec fn view(&self) -> DisplayErrorV {
        match self {
            DisplayError::UnknownFilter { filter } => DisplayErrorV::UnknownFilter { filter: filter@ },
            DisplayError::RangeWithToday => DisplayErrorV::RangeWithToday,
            DisplayError::InvalidTime { text, reason } => DisplayErrorV::InvalidTime {
                text: text@,
                reason: *reason,
            },
        }
    }
}

/// The view of a range: whether it is today's, and its bounds otherwise.
pub open spec fn range_v(r: RecordsRange) -> (bool, Option<Timestamp>, Option<Timestamp>) {
    match r {
        RecordsRange::Today => (true, None, None),
        RecordsRange::Between { start, end } => (false, start, end),
    }
}

fn parse_time_option(t: Option<String>) -> (r: Result<Option<Timestamp>, (String, TimeParseError)>)
    ensures
        match time_option(opt_str_view(t)) {
            Ok(v) => r == Ok::<Option<Timestamp>, (String, TimeParseError)>(v),
            Err((s, k)) => r matches Err(x) && x.0@ == s && x.1 == k,
        },
{
    match t {
        None => Ok(None),
        Some(s) => match parse_datetime(s.as_str()) {
            Ok(ts) => Ok(Some(ts)),
            Err(k) => Err((s, k)),
        },
    }
}

/// Decides which records a listing asks for: "today" (as a flag or as the
/// filter) or the records between the optional start and end, each an RFC
/// 3339 date and time.
pub fn records_range(start: Option<String>, end: Option<String>, today: bool, filter: Option<String>) -> (r: Result<
    RecordsRange,
    DisplayError,
>)
    ensures
        match records_range_spec(opt_str_view(start), opt_str_view(end), today, opt_str_view(filter)) {
            Ok(v) => r matches Ok(x) && range_v(x) == v,
            Err(e) => r matches Err(x) && x@ == e,
        },
{
    let today_text = "today".to_string();
    let filter_is_today = match &filter {
        Some(f) => *f == today_text,
        None => false,
    };
    if today && filter.is_some() && !filter_is_today {
        return Err(DisplayError::UnknownFilter { filter: filter.unwrap() });
    }
    if today || filter_is_today {
        if start.is_some() || end.is_some() {
            return Err(DisplayError::RangeWithToday);
        }
        return Ok(RecordsRange::Today);
    }
    if let Some(f) = filter {
        return Err(DisplayError::UnknownFilter { filter: f });
    }
    let st = match parse_time_option(start) {
        Ok(v) => v,
        Err((s, k)) => return Err(DisplayError::InvalidTime { text: s, reason: k }),
    };
    let en = match parse_time_option(end) {
        Ok(v) => v,
        Err((s, k)) => return Err(DisplayError::InvalidTime { text: s, reason: k }),
    };
    Ok(RecordsRange::Between { start: st, end: en })
}

} // verus!
