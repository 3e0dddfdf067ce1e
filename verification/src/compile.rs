//! The decisions of compilation: which directories and files changed since
//! the cache last saw them, and what has to be upserted or deleted.

use vstd::prelude::*;
use crate::documents::{project_of_eri, record_of_eri, tag_of_eri, EriError};
use crate::eri::Eri;
use crate::fingerprints::{
    actions_view, compare_fingerprints, delete_v, fingerprint_actions_ok, FileAction, FileActionV,
    PathMap,
};
use crate::paths::{extension, has_component, is_eri_path, join, path_has_component, path_join};
use crate::time::{day_text, format_day};
use crate::types::{Date, Project, Record, Tag};

verus! {

broadcast use vstd::string::group_string_axioms;

// ---------------------------------------------------------------- paths

/// The directory of a day under `base`: `base/YYYY/MM/DD`, where chrono can
/// represent the day.
pub open spec fn day_path_spec(base: Seq<char>, day: Date) -> Option<Seq<char>> {
    if i32::MIN <= day.days <= i32::MAX {
        match (
            day_text(day.days as i32, "%Y"@),
            day_text(day.days as i32, "%m"@),
            day_text(day.days as i32, "%d"@),
        ) {
            (Some(y), Some(m), Some(d)) => Some(path_join(path_join(path_join(base, y), m), d)),
            _ => None,
        }
    } else {
        None
    }
}

/// Where compilation looks for the records of a day:
/// `base/Records/YYYY/MM/DD`.
pub open spec fn event_path_spec(base: Seq<char>, day: Date) -> Option<Seq<char>> {
    day_path_spec(path_join(base, "Records"@), day)
}

/// The directory of a day under `base`, if chrono can represent the day.
pub fn day_path(base: &str, day: &Date) -> (r: Option<String>)
    ensures
        match day_path_spec(base@, *day) {
            Some(p) => r matches Some(s) && s@ == p,
            None => r.is_none(),
        },
{
    let y = match format_day(day, "%Y") {
        Some(s) => s,
        None => return None,
    };
    let m = match format_day(day, "%m") {
        Some(s) => s,
        None => return None,
    };
    let d = match format_day(day, "%d") {
        Some(s) => s,
        None => return None,
    };
    let p = join(base, y.as_str());
    let p = join(p.as_str(), m.as_str());
    Some(join(p.as_str(), d.as_str()))
}

/// The directory where compilation looks for the records of a day, if
/// chrono can represent the day.
pub fn event_path(base: &str, day: &Date) -> (r: Option<String>)
    ensures
        match event_path_spec(base@, *day) {
            Some(p) => r matches Some(s) && s@ == p,
            None => r.is_none(),
        },
{
    let records = join(base, "Records");
    day_path(records.as_str(), day)
}

// ---------------------------------------------------------------- directories

/// What a look at a directory found.
pub enum DirectoryScan {
    /// The directory does not exist.
    Missing,
    /// The directory exists; its clock sum and the fingerprints of its
    /// ".eri" files.
    Found { clock: u64, files: PathMap },
}

/// Whether a directory whose clocks sum to `clock` has to be read again,
/// the cache holding `cached` for it.
pub fn needs_rescan(clock: u64, cached: u64) -> (b: bool)
    ensures
        b == (clock != cached),
{
    clock != cached
}

/// The actions that delete every cached file and nothing else.
pub open spec fn deletes_all(cache: PathMap, acts: Seq<FileActionV>) -> bool {
    &&& forall|a: FileActionV| #[trigger] acts.contains(a) ==> exists|p: Seq<char>|
        a == delete_v(p) && cache.has_key(p)
    &&& forall|p: Seq<char>| cache.has_key(p) ==> #[trigger] acts.contains(delete_v(p))
    &&& acts.no_duplicates()
}

/// The actions for a directory: reconcile its files with the cache, then
/// store its clock, or drop the clock where the directory is gone.
pub fn directory_actions(dir: &String, scan: DirectoryScan, cache: PathMap) -> (r: Vec<FileAction>)
    ensures
        r@.len() >= 1,
        match scan {
            DirectoryScan::Missing => {
                &&& deletes_all(cache, actions_view(r@).drop_last())
                &&& actions_view(r@).last() == (FileActionV::ClockDelete { path: dir@ })
            },
            DirectoryScan::Found { clock, files } => {
                &&& fingerprint_actions_ok(files, cache, actions_view(r@).drop_last())
                &&& actions_view(r@).last() == (FileActionV::ClockUpsert { path: dir@, clock })
            },
        },
{
    let ghost cache_v = cache;
    match scan {
        DirectoryScan::Missing => {
            let empty = PathMap::new();
            let ghost empty_v = empty;
            let mut acts = compare_fingerprints(empty, cache);
            let ghost before = acts@;
            acts.push(FileAction::ClockDelete { path: dir.clone() });
            proof {
                assert(actions_view(acts@).drop_last() =~= actions_view(before));
                let av = actions_view(before);
                assert forall|a: FileActionV| #[trigger] av.contains(a) implies exists|p: Seq<char>|
                    a == delete_v(p) && cache_v.has_key(p) by {
                    match a {
                        FileActionV::Upsert { path, fingerprint } => {
                            assert(empty_v.has_entry(path, fingerprint));
                        },
                        FileActionV::Delete { path } => {
                            assert(a == delete_v(path));
                        },
                        _ => {},
                    }
                }
                assert forall|p: Seq<char>| cache_v.has_key(p) implies #[trigger] av.contains(delete_v(p)) by {
                    assert(!empty_v.has_key(p));
                }
            }
            acts
        },
        DirectoryScan::Found { clock, files } => {
            let mut acts = compare_fingerprints(files, cache);
            let ghost before = acts@;
            acts.push(FileAction::ClockUpsert { path: dir.clone(), clock });
            proof {
                assert(actions_view(acts@).drop_last() =~= actions_view(before));
            }
            acts
        },
    }
}

/// The ".eri" files among the paths of a directory listing, in order.
pub fn eri_files(paths: Vec<String>) -> (r: Vec<String>)
    ensures
        r@.map_values(|s: String| s@) == paths@.map_values(|s: String| s@).filter(
            |p: Seq<char>| extension(p) == Some("eri"@),
        ),
{
    let ghost pv = paths@.map_values(|s: String| s@);
    let mut out: Vec<String> = Vec::new();
    let mut i: usize = 0;
    while i < paths.len()
        invariant
            i <= paths@.len(),
            pv == paths@.map_values(|s: String| s@),
            out@.map_values(|s: String| s@) == pv.subrange(0, i as int).filter(
                |p: Seq<char>| extension(p) == Some("eri"@),
            ),
        decreases paths@.len() - i,
    {
        proof {
            assert(pv.subrange(0, i + 1).drop_last() =~= pv.subrange(0, i as int));
            reveal_with_fuel(Seq::filter, 1);
        }
        if is_eri_path(paths[i].as_str()) {
            let ghost before = out@;
            out.push(paths[i].clone());
            proof {
                assert(out@.map_values(|s: String| s@) =~= before.map_values(|s: String| s@).push(
                    paths@[i as int]@,
                ));
            }
        }
        i = i + 1;
    }
    proof {
        assert(pv.subrange(0, paths@.len() as int) =~= pv);
    }
    out
}

// ---------------------------------------------------------------- all records

/// The day directories of a walk, each path once.
pub open spec fn days_distinct(days: Seq<(String, u64)>) -> bool {
    forall|i: int, j: int|
        0 <= i < days.len() && 0 <= j < days.len() && i != j ==> (#[trigger] days[i]).0@ != (#[trigger] days[j]).0@
}

/// The days whose clock sum differs from the cached one (or that the cache
/// does not know), in walk order.
pub open spec fn stale_days(days: Seq<(String, u64)>, cached: PathMap) -> Seq<(Seq<char>, u64)>
    decreases days.len(),
{
    if days.len() == 0 {
        seq![]
    } else {
        let rest = stale_days(days.drop_last(), cached);
        let d = days.last();
        if cached.has_entry(d.0@, d.1) {
            rest
        } else {
            rest.push((d.0@, d.1))
        }
    }
}

/// Whether a walk found the day directory `p`.
pub open spec fn walk_has(days: Seq<(String, u64)>, p: Seq<char>) -> bool {
    exists|i: int| 0 <= i < days.len() && (#[trigger] days[i]).0@ == p
}

/// What compiling all records has to do.
pub struct RecordsPlan {
    /// The days to read again, with their clock sums.
    pub stale: Vec<(String, u64)>,
    /// Clock deletes for the cached day directories that no longer exist.
    pub orphans: Vec<FileAction>,
}

/// Given the day directories that a walk of the records found (with their
/// clock sums) and the cached clocks, lists the days to compile again and
/// the clocks to drop.
pub fn plan_all_records(days: Vec<(String, u64)>, cached: PathMap) -> (r: RecordsPlan)
    requires
        days_distinct(days@),
    ensures
        r.stale@.map_values(|d: (String, u64)| (d.0@, d.1)) == stale_days(days@, cached),
        forall|a: FileActionV| #[trigger] actions_view(r.orphans@).contains(a) ==> exists|p: Seq<char>|
            a == (FileActionV::ClockDelete { path: p }) && cached.has_key(p) && !walk_has(days@, p),
        forall|p: Seq<char>|
            cached.has_key(p) && !walk_has(days@, p) ==> #[trigger] actions_view(r.orphans@).contains(
                FileActionV::ClockDelete { path: p },
            ),
        actions_view(r.orphans@).no_duplicates(),
{
    let ghost dv = days@;
    let mut stale: Vec<(String, u64)> = Vec::new();
    let mut found = PathMap::new();
    let mut i: usize = 0;
    while i < days.len()
        invariant
            i <= days@.len(),
            dv == days@,
            days_distinct(dv),
            stale@.map_values(|d: (String, u64)| (d.0@, d.1)) == stale_days(dv.subrange(0, i as int), cached),
            forall|p: Seq<char>| #[trigger] found.has_key(p) <==> walk_has(dv.subrange(0, i as int), p),
        decreases days@.len() - i,
    {
        let (p, c) = (&days[i].0, days[i].1);
        proof {
            assert(dv.subrange(0, i + 1).drop_last() =~= dv.subrange(0, i as int));
        }
        let same = match cached.get(p) {
            Some(v) => v == c,
            None => false,
        };
        if !same {
            let ghost before = stale@;
            stale.push((p.clone(), c));
            proof {
                assert(stale@.map_values(|d: (String, u64)| (d.0@, d.1)) =~= before.map_values(
                    |d: (String, u64)| (d.0@, d.1),
                ).push((p@, c)));
            }
        }
        found.insert(p.clone(), c);
        proof {
            assert forall|q: Seq<char>| #[trigger] found.has_key(q) <==> walk_has(dv.subrange(0, i + 1), q) by {
                if walk_has(dv.subrange(0, i + 1), q) {
                    let k = choose|k: int| 0 <= k < i + 1 && (#[trigger] dv.subrange(0, i + 1)[k]).0@ == q;
                    if k < i {
                        assert(dv.subrange(0, i as int)[k] == dv.subrange(0, i + 1)[k]);
                    }
                }
                if walk_has(dv.subrange(0, i as int), q) {
                    let k = choose|k: int| 0 <= k < i && (#[trigger] dv.subrange(0, i as int)[k]).0@ == q;
                    assert(dv.subrange(0, i + 1)[k] == dv.subrange(0, i as int)[k]);
                }
                if q == p@ {
                    assert(dv.subrange(0, i + 1)[i as int].0@ == q);
                }
            }
        }
        i = i + 1;
    }
    proof {
        assert(dv.subrange(0, days@.len() as int) =~= dv);
    }
    let ghost found_v = found;
    let deletes = compare_fingerprints(found, cached);
    let ghost dels = actions_view(deletes@);
    let mut orphans: Vec<FileAction> = Vec::new();
    let mut j: usize = 0;
    while j < deletes.len()
        invariant
            j <= deletes@.len(),
            dels == actions_view(deletes@),
            fingerprint_actions_ok(found_v, cached, dels),
            forall|q: Seq<char>| #[trigger] found_v.has_key(q) <==> walk_has(dv, q),
            orphans@.len() <= j,
            forall|x: int| 0 <= x < orphans@.len() ==> exists|k: int|
                0 <= k < j && dels[k] is Delete && (#[trigger] orphans@[x])@ == (FileActionV::ClockDelete {
                    path: dels[k]->Delete_path,
                }),
            forall|k: int| 0 <= k < j && dels[k] is Delete ==> exists|x: int|
                0 <= x < orphans@.len() && (#[trigger] orphans@[x])@ == (FileActionV::ClockDelete {
                    path: dels[k]->Delete_path,
                }),
            forall|x: int, y: int| 0 <= x < orphans@.len() && 0 <= y < orphans@.len() && x != y
                ==> (#[trigger] orphans@[x])@ != (#[trigger] orphans@[y])@,
        decreases deletes@.len() - j,
    {
        match &deletes[j] {
            FileAction::Delete { path } => {
                let ghost before = orphans@;
                orphans.push(FileAction::ClockDelete { path: path.clone() });
                proof {
                    assert(dels[j as int] == deletes@[j as int]@);
                    assert forall|x: int, y: int| 0 <= x < orphans@.len() && 0 <= y < orphans@.len() && x != y
                        implies (#[trigger] orphans@[x])@ != (#[trigger] orphans@[y])@ by {
                        if x < before.len() && y < before.len() {
                            assert(orphans@[x] == before[x]);
                            assert(orphans@[y] == before[y]);
                        } else if x < before.len() {
                            assert(orphans@[x] == before[x]);
                            let k = choose|k: int| 0 <= k < j && dels[k] is Delete && (#[trigger] before[x])@
                                == (FileActionV::ClockDelete { path: dels[k]->Delete_path });
                            assert(dels[k] != dels[j as int]);
                        } else if y < before.len() {
                            assert(orphans@[y] == before[y]);
                            let k = choose|k: int| 0 <= k < j && dels[k] is Delete && (#[trigger] before[y])@
                                == (FileActionV::ClockDelete { path: dels[k]->Delete_path });
                            assert(dels[k] != dels[j as int]);
                        }
                    }
                    assert forall|x: int| 0 <= x < orphans@.len() implies exists|k: int|
                        0 <= k < j + 1 && dels[k] is Delete && (#[trigger] orphans@[x])@
                            == (FileActionV::ClockDelete { path: dels[k]->Delete_path }) by {
                        if x < before.len() {
                            assert(orphans@[x] == before[x]);
                        } else {
                            assert(orphans@[x]@ == (FileActionV::ClockDelete { path: dels[j as int]->Delete_path }));
                        }
                    }
                    assert forall|k: int| 0 <= k < j + 1 && dels[k] is Delete implies exists|x: int|
                        0 <= x < orphans@.len() && (#[trigger] orphans@[x])@ == (FileActionV::ClockDelete {
                            path: dels[k]->Delete_path,
                        }) by {
                        if k < j {
                            let x = choose|x: int| 0 <= x < before.len() && (#[trigger] before[x])@
                                == (FileActionV::ClockDelete { path: dels[k]->Delete_path });
                            assert(orphans@[x] == before[x]);
                        } else {
                            assert(orphans@[before.len() as int]@ == (FileActionV::ClockDelete {
                                path: dels[k]->Delete_path,
                            }));
                        }
                    }
                }
            },
            _ => {},
        }
        j = j + 1;
    }
    proof {
        let ov = actions_view(orphans@);
        assert forall|a: FileActionV| #[trigger] ov.contains(a) implies exists|p: Seq<char>|
            a == (FileActionV::ClockDelete { path: p }) && cached.has_key(p) && !walk_has(dv, p) by {
            let x = choose|x: int| 0 <= x < ov.len() && ov[x] == a;
            assert(ov[x] == orphans@[x]@);
            let k = choose|k: int| 0 <= k < deletes@.len() && dels[k] is Delete && (#[trigger] orphans@[x])@
                == (FileActionV::ClockDelete { path: dels[k]->Delete_path });
            assert(dels.contains(dels[k]));
        }
        assert forall|p: Seq<char>| cached.has_key(p) && !walk_has(dv, p) implies #[trigger] ov.contains(
            FileActionV::ClockDelete { path: p },
        ) by {
            assert(!found_v.has_key(p));
            assert(dels.contains(delete_v(p)));
            let k = choose|k: int| 0 <= k < dels.len() && dels[k] == delete_v(p);
            let x = choose|x: int| 0 <= x < orphans@.len() && (#[trigger] orphans@[x])@
                == (FileActionV::ClockDelete { path: dels[k]->Delete_path });
            assert(ov[x] == orphans@[x]@);
        }
        assert forall|x: int, y: int| 0 <= x < ov.len() && 0 <= y < ov.len() && x != y implies ov[x] != ov[y] by {
            assert(ov[x] == orphans@[x]@);
            assert(ov[y] == orphans@[y]@);
        }
    }
    RecordsPlan { stale, orphans }
}

// ---------------------------------------------------------------- cached clocks

/// Whether a cached clock belongs to a day of records, not to the projects
/// or tags directories.
pub open spec fn is_record_clock(p: Seq<char>) -> bool {
    !has_component(p, "Projects"@) && !has_component(p, "Tags"@)
}

/// The clocks of the days of records among the cached clock rows: a later
/// row for a path replaces an earlier one.
pub open spec fn record_clocks_spec(rows: Seq<(String, i64)>) -> Map<Seq<char>, u64>
    decreases rows.len(),
{
    if rows.len() == 0 {
        Map::empty()
    } else {
        let rest = record_clocks_spec(rows.drop_last());
        let (p, sum) = rows.last();
        if is_record_clock(p@) {
            rest.insert(p@, sum as u64)
        } else {
            rest
        }
    }
}

/// The cached clocks of the days of records, from the rows of the clock
/// table.
pub fn record_clocks(rows: Vec<(String, i64)>) -> (m: PathMap)
    ensures
        forall|p: Seq<char>, v: u64| #[trigger]
            m.has_entry(p, v) <==> record_clocks_spec(rows@).contains_key(p) && record_clocks_spec(rows@)[p]
                == v,
{
    let ghost rv = rows@;
    let mut m = PathMap::new();
    let mut i: usize = 0;
    while i < rows.len()
        invariant
            i <= rows@.len(),
            rv == rows@,
            forall|p: Seq<char>, v: u64| #[trigger]
                m.has_entry(p, v) <==> record_clocks_spec(rv.subrange(0, i as int)).contains_key(p)
                    && record_clocks_spec(rv.subrange(0, i as int))[p] == v,
        decreases rows@.len() - i,
    {
        proof {
            assert(rv.subrange(0, i + 1).drop_last() =~= rv.subrange(0, i as int));
        }
        let p = &rows[i].0;
        proof {
            reveal_strlit("Projects");
            reveal_strlit("Tags");
        }
        let keep = !path_has_component(p.as_str(), "Projects") && !path_has_component(p.as_str(), "Tags");
        if keep {
            m.insert(p.clone(), rows[i].1 as u64);
        }
        i = i + 1;
    }
    proof {
        assert(rv.subrange(0, rows@.len() as int) =~= rv);
    }
    m
}

// ---------------------------------------------------------------- single files

/// What compiling one path starts with.
#[derive(Clone, Copy, PartialEq, Eq, Structural, Debug)]
pub enum PathStep {
    /// The path does not name an ".eri" file: compiling it fails.
    NotEri,
    /// The file is gone: remove what the cache holds for it.
    Delete,
    /// Read and parse the file.
    Read,
}

/// The first step of compiling a single path, given whether it exists and
/// whether it is a directory.
pub fn compile_path_step(path: &str, exists: bool, is_dir: bool) -> (s: PathStep)
    ensures
        s == (if extension(path@) != Some("eri"@) {
            PathStep::NotEri
        } else if !is_dir && !exists {
            PathStep::Delete
        } else {
            PathStep::Read
        }),
{
    if !is_eri_path(path) {
        PathStep::NotEri
    } else if !is_dir && !exists {
        PathStep::Delete
    } else {
        PathStep::Read
    }
}

/// A parsed document of one of the three kinds.
pub enum Compiled {
    Record(Record),
    Tag(Tag),
    Project(Project),
}

/// Why a document could not be compiled.
#[derive(Debug)]
pub enum CompileError {
    /// The document's schema is none of the three kinds; it is given.
    InvalidSchema(String),
    /// The document does not describe a valid item of its kind.
    Invalid(EriError),
}

/// Reads a document as the kind of item that its schema names
/// ("horologium:record", "horologium:tag" or "horologium:project").
/// Compilation reads records under "horologium:record"; the record
/// documents that the actions write carry "horologium:event" and are an
/// invalid schema here.
pub fn compile_document(eri: Eri) -> (r: Result<Compiled, CompileError>)
    ensures
        if eri@.schema == "horologium:record"@ {
            match r {
                Ok(Compiled::Record(rec)) => record_of_eri(eri@) == Ok::<_, EriError>(rec@),
                Err(CompileError::Invalid(e)) => record_of_eri(eri@) == Err::<crate::types::RecordV, _>(e),
                _ => false,
            }
        } else if eri@.schema == "horologium:tag"@ {
            match r {
                Ok(Compiled::Tag(t)) => tag_of_eri(eri@) == Ok::<_, EriError>(t@),
                Err(CompileError::Invalid(e)) => tag_of_eri(eri@) == Err::<crate::types::TagV, _>(e),
                _ => false,
            }
        } else if eri@.schema == "horologium:project"@ {
            match r {
                Ok(Compiled::Project(p)) => project_of_eri(eri@) == Ok::<_, EriError>(p@),
                Err(CompileError::Invalid(e)) => project_of_eri(eri@) == Err::<crate::types::ProjectV, _>(e),
                _ => false,
            }
        } else {
            r matches Err(CompileError::InvalidSchema(s)) && s@ == eri@.schema
        },
{
    if eri.schema == "horologium:record".to_string() {
        match Record::try_from_eri(eri) {
            Ok(rec) => Ok(Compiled::Record(rec)),
            Err(e) => Err(CompileError::Invalid(e)),
        }
    } else if eri.schema == "horologium:tag".to_string() {
        match Tag::try_from_eri(eri) {
            Ok(t) => Ok(Compiled::Tag(t)),
            Err(e) => Err(CompileError::Invalid(e)),
        }
    } else if eri.schema == "horologium:project".to_string() {
        match Project::try_from_eri(eri) {
            Ok(p) => Ok(Compiled::Project(p)),
            Err(e) => Err(CompileError::Invalid(e)),
        }
    } else {
        Err(CompileError::InvalidSchema(eri.schema))
    }
}

} // verus!
