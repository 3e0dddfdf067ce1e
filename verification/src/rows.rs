//! The rows that the cache holds for records, tags and projects, and the
//! maps read back from its fingerprint and clock tables.

use std::hash::{Hash, Hasher};
use vstd::prelude::*;
use vstd::arithmetic::div_mod::{
    lemma_fundamental_div_mod, lemma_fundamental_div_mod_converse, lemma_mod_bound, lemma_mod_multiples_vanish,
    lemma_mul_mod_noop_left,
};
use vstd::arithmetic::mul::lemma_mul_is_associative;
use crate::fingerprints::PathMap;
use crate::time::{day_text, format_day};
use crate::types::{
    color_named, colors_view, Color, Event, EventV, Fingerprint, Project, ProjectState, Record,
    RecordV, Tag, TagId, opt_str_view, tag_ids_view,
};

verus! {

broadcast use vstd::string::group_string_axioms;

// ---------------------------------------------------------------- colours as JSON

/// What serde_json's `to_string` gives for a list of strings: the text of a
/// JSON array of them, or `None` where it fails.
pub uninterp spec fn json_text(names: Seq<Seq<char>>) -> Option<Seq<char>>;

/// Writes a list of strings as a JSON array with serde_json (`to_string`).
/// Claimed: the result is the named result of the strings.
#[verifier::external_body]
fn serde_json_text(names: &Vec<String>) -> (r: Option<String>)
    ensures
        opt_str_view(r) == json_text(names@.map_values(|x: String| x@)),
{
    serde_json::to_string(names).ok()
}

/// The names under which serde writes the palette entries that the colours
/// name (the variant names), in order; a colour that names no palette entry
/// has no place in the cache's list and is left out.
pub open spec fn json_names(cs: Seq<Seq<char>>) -> Seq<Seq<char>>
    decreases cs.len(),
{
    if cs.len() == 0 {
        seq![]
    } else {
        let rest = json_names(cs.drop_last());
        match color_named(cs.last()) {
            Some(c) => rest.push(c.json_name_spec()),
            None => rest,
        }
    }
}

fn color_json_names(colors: &Vec<Color>) -> (r: Vec<String>)
    ensures
        r@.map_values(|x: String| x@) == json_names(colors_view(colors@)),
{
    let ghost names = colors_view(colors@);
    let mut r: Vec<String> = Vec::new();
    let mut i: usize = 0;
    while i < colors.len()
        invariant
            i <= colors@.len(),
            names == colors_view(colors@),
            r@.map_values(|x: String| x@) == json_names(names.subrange(0, i as int)),
        decreases colors@.len() - i,
    {
        proof {
            assert(names.subrange(0, i + 1).drop_last() =~= names.subrange(0, i as int));
            assert(names.subrange(0, i + 1).last() == colors@[i as int].0@);
        }
        let ghost before = r@.map_values(|x: String| x@);
        match colors[i].scheme() {
            Some(c) => {
                r.push(c.json_name().to_string());
                proof {
                    assert(r@.map_values(|x: String| x@) =~= before.push(c.json_name_spec()));
                }
            },
            None => {},
        }
        i = i + 1;
    }
    proof {
        assert(names.subrange(0, colors@.len() as int) =~= names);
    }
    r
}

/// The JSON text of a list of colours, as the cache stores it.
pub fn colors_json(colors: &Vec<Color>) -> (r: Option<String>)
    ensures
        opt_str_view(r) == json_text(json_names(colors_view(colors@))),
{
    let names = color_json_names(colors);
    serde_json_text(&names)
}

// ---------------------------------------------------------------- records

/// The row of a record.
pub struct RecordRow {
    pub id: String,
    pub name: Option<String>,
    pub status: String,
    pub start: i64,
    pub project_id: Option<String>,
    pub path: String,
    pub fingerprint: i64,
}

/// The row that ties a tag to a record, at its position among the record's
/// tags.
pub struct RecordTagRow {
    pub tag_id: String,
    pub record_id: String,
    pub position: i64,
}

/// The status that the cache gives a record: "active" for a start,
/// "inactive" for a stop.
pub open spec fn status_of(ev: EventV) -> Seq<char> {
    match ev {
        EventV::Active { .. } => "active"@,
        EventV::Inactive { .. } => "inactive"@,
    }
}

/// Whether a record row holds the record kept at `path` with fingerprint
/// `fp`: its start in whole seconds, and the fingerprint's bits as a signed
/// number.
pub open spec fn record_row_of(r: RecordV, path: Seq<char>, fp: u64, row: RecordRow) -> bool {
    &&& row.id@ == r.id
    &&& row.status@ == status_of(r.event)
    &&& row.start == r.start.secs
    &&& row.path@ == path
    &&& row.fingerprint == fp as i64
    &&& match r.event {
        EventV::Active { name, project, .. } => {
            &&& opt_str_view(row.name) == Some(name)
            &&& opt_str_view(row.project_id) == match project {
                Some(p) => Some(p.id),
                None => None::<Seq<char>>,
            }
        },
        EventV::Inactive { name } => {
            &&& opt_str_view(row.name) == name
            &&& row.project_id is None
        },
    }
}

/// Whether the tag rows tie the record's tags to it, in order.
pub open spec fn record_tag_rows_of(r: RecordV, rows: Seq<RecordTagRow>) -> bool {
    let tags = match r.event {
        EventV::Active { tags, .. } => tags,
        EventV::Inactive { .. } => seq![],
    };
    &&& rows.len() == tags.len()
    &&& forall|i: int|
        0 <= i < rows.len() ==> {
            &&& (#[trigger] rows[i]).tag_id@ == tags[i].id
            &&& rows[i].record_id@ == r.id
            &&& rows[i].position == i as i64
        }
}

fn tag_rows_for(tags: &Vec<TagId>, record_id: &String) -> (rows: Vec<RecordTagRow>)
    ensures
        rows@.len() == tags@.len(),
        forall|i: int|
            0 <= i < rows@.len() ==> {
                &&& (#[trigger] rows@[i]).tag_id@ == tags@[i].id@
                &&& rows@[i].record_id@ == record_id@
                &&& rows@[i].position == i as i64
            },
{
    let mut rows: Vec<RecordTagRow> = Vec::new();
    let mut i: usize = 0;
    while i < tags.len()
        invariant
            i <= tags@.len(),
            rows@.len() == i,
            forall|j: int|
                0 <= j < i ==> {
                    &&& (#[trigger] rows@[j]).tag_id@ == tags@[j].id@
                    &&& rows@[j].record_id@ == record_id@
                    &&& rows@[j].position == j as i64
                },
        decreases tags@.len() - i,
    {
        rows.push(
            RecordTagRow { tag_id: tags[i].id.clone(), record_id: record_id.clone(), position: i as i64 },
        );
        i = i + 1;
    }
    rows
}

/// The rows that the cache holds for the record kept at `path` with
/// fingerprint `fp`: the record's own row and one row per tag.
pub fn record_rows(record: Record, path: String, fp: u64) -> (r: (RecordRow, Vec<RecordTagRow>))
    ensures
        record_row_of(record@, path@, fp, r.0),
        record_tag_rows_of(record@, r.1@),
{
    let ghost rv = record@;
    let id = record.id.0;
    match record.event {
        Event::Active { name, tags, project } => {
            let tag_rows = tag_rows_for(&tags, &id);
            let project_id = match project {
                Some(p) => Some(p.id),
                None => None,
            };
            proof {
                assert(forall|i: int| 0 <= i < tags@.len() ==> tags@[i].id@ == tag_ids_view(tags@)[i].id);
            }
            let row = RecordRow {
                id,
                name: Some(name),
                status: "active".to_string(),
                start: record.start.secs,
                project_id,
                path,
                fingerprint: fp as i64,
            };
            (row, tag_rows)
        },
        Event::Inactive { name } => {
            let row = RecordRow {
                id,
                name,
                status: "inactive".to_string(),
                start: record.start.secs,
                project_id: None,
                path,
                fingerprint: fp as i64,
            };
            (row, Vec::new())
        },
    }
}

// ---------------------------------------------------------------- tags and projects

/// The row of a tag.
pub struct TagRow {
    pub id: String,
    pub name: String,
    pub color_json: String,
    pub path: String,
    pub fingerprint: i64,
}

/// The row of a project.
pub struct ProjectRow {
    pub id: String,
    pub name: String,
    pub state: String,
    pub color_json: String,
    pub completed_date: Option<String>,
    pub path: String,
    pub fingerprint: i64,
}

/// Why a row could not be made.
#[derive(Clone, Copy, PartialEq, Eq, Structural, Debug)]
pub enum RowError {
    /// serde_json could not write the colours.
    Json,
    /// chrono cannot write the completion date.
    TimeOutOfRange,
}

/// The row that the cache holds for the tag kept at `path` with fingerprint
/// `fp`, or `Json` where serde_json cannot write its colours.
pub fn tag_row(tag: Tag, path: String, fp: u64) -> (r: Result<TagRow, RowError>)
    ensures
        match json_text(json_names(colors_view(tag.color@))) {
            Some(j) => r matches Ok(row) && row.id@ == tag.id@ && row.name@ == tag.name@ && row.color_json@
                == j && row.path@ == path@ && row.fingerprint == fp as i64,
            None => r matches Err(e) && e == RowError::Json,
        },
{
    let color_json = match colors_json(&tag.color) {
        Some(j) => j,
        None => return Err(RowError::Json),
    };
    Ok(TagRow { id: tag.id, name: tag.name, color_json, path, fingerprint: fp as i64 })
}

/// The row that the cache holds for the project kept at `path` with
/// fingerprint `fp`; a completed one has its day written "%Y-%m-%d". Fails
/// where serde_json cannot write the colours (checked first) or chrono
/// cannot write the day.
pub fn project_row(project: Project, path: String, fp: u64) -> (r: Result<ProjectRow, RowError>)
    ensures
        match json_text(json_names(colors_view(project.color@))) {
            None => r matches Err(e) && e == RowError::Json,
            Some(j) => match project.state {
                ProjectState::Active => r matches Ok(row) && row.completed_date is None && row.color_json@ == j
                    && row.id@ == project.id@ && row.name@ == project.name@ && row.state@ == "active"@
                    && row.path@ == path@ && row.fingerprint == fp as i64,
                ProjectState::Done { completed_date } => if i32::MIN <= completed_date.days <= i32::MAX
                    && day_text(completed_date.days as i32, "%Y-%m-%d"@) is Some {
                    r matches Ok(row) && opt_str_view(row.completed_date) == day_text(
                        completed_date.days as i32,
                        "%Y-%m-%d"@,
                    ) && row.color_json@ == j && row.id@ == project.id@ && row.name@ == project.name@
                        && row.state@ == "done"@ && row.path@ == path@ && row.fingerprint == fp as i64
                } else {
                    r matches Err(e) && e == RowError::TimeOutOfRange
                },
            },
        },
{
    let color_json = match colors_json(&project.color) {
        Some(j) => j,
        None => return Err(RowError::Json),
    };
    let (state, completed_date) = match project.state {
        ProjectState::Active => ("active".to_string(), None),
        ProjectState::Done { completed_date } => match format_day(&completed_date, "%Y-%m-%d") {
            Some(t) => ("done".to_string(), Some(t)),
            None => return Err(RowError::TimeOutOfRange),
        },
    };
    Ok(
        ProjectRow {
            id: project.id,
            name: project.name,
            state,
            color_json,
            completed_date,
            path,
            fingerprint: fp as i64,
        },
    )
}

// ---------------------------------------------------------------- reading tables back

/// The map of paths to the unsigned values of stored signed numbers; a later
/// row for a path replaces an earlier one.
pub open spec fn rows_map(rows: Seq<(String, i64)>) -> Map<Seq<char>, u64>
    decreases rows.len(),
{
    if rows.len() == 0 {
        Map::empty()
    } else {
        let (p, v) = rows.last();
        rows_map(rows.drop_last()).insert(p@, v as u64)
    }
}

/// The fingerprints of the files of a directory, from the rows of the
/// cache's table.
pub fn fingerprints_from_rows(rows: Vec<(String, i64)>) -> (m: PathMap)
    ensures
        forall|p: Seq<char>, v: u64| #[trigger]
            m.has_entry(p, v) <==> rows_map(rows@).contains_key(p) && rows_map(rows@)[p] == v,
{
    let ghost rv = rows@;
    let mut m = PathMap::new();
    let mut i: usize = 0;
    while i < rows.len()
        invariant
            i <= rows@.len(),
            rv == rows@,
            forall|p: Seq<char>, v: u64| #[trigger]
                m.has_entry(p, v) <==> rows_map(rv.subrange(0, i as int)).contains_key(p) && rows_map(
                    rv.subrange(0, i as int),
                )[p] == v,
        decreases rows@.len() - i,
    {
        proof {
            assert(rv.subrange(0, i + 1).drop_last() =~= rv.subrange(0, i as int));
        }
        m.insert(rows[i].0.clone(), rows[i].1 as u64);
        i = i + 1;
    }
    proof {
        assert(rv.subrange(0, rows@.len() as int) =~= rv);
    }
    m
}

/// The clock of a directory from the cache's row for it: 0 where there is
/// none.
pub fn clock_from_row(row: Option<i64>) -> (c: u64)
    ensures
        c == match row {
            Some(s) => s as u64,
            None => 0u64,
        },
{
    match row {
        Some(s) => s as u64,
        None => 0,
    }
}

// ---------------------------------------------------------------- fingerprints of files

/// The fields of a fingerprint in the order its derived `Hash` writes them.
pub open spec fn fingerprint_fields(f: Fingerprint) -> Seq<int> {
    seq![f.size as int, f.mtime as int, f.mtime_nsec as int, f.ctime as int, f.ctime_nsec as int]
}

/// The 64-bit word that a field is written as (`i as u64` for a signed one).
pub open spec fn word64(x: int) -> int {
    if x < 0 {
        x + 0x1_0000_0000_0000_0000
    } else {
        x
    }
}

/// The words that the fields of a fingerprint are written as.
pub open spec fn fingerprint_words(f: Fingerprint) -> Seq<int> {
    fingerprint_fields(f).map_values(|x: int| word64(x))
}

/// One word mixed into FxHasher's state on a 64-bit machine: the state `h`
/// becomes `(h + w) * K`, wrapping at 2^64.
pub open spec fn fx_mix64(h: int, w: int) -> int {
    ((h + w) * 0xf1357aea2e62a9c5) % 0x1_0000_0000_0000_0000
}

/// FxHasher's state on a 64-bit machine after the words, from 0.
pub open spec fn fx_state64(ws: Seq<int>) -> int
    decreases ws.len(),
{
    if ws.len() == 0 {
        0
    } else {
        fx_mix64(fx_state64(ws.drop_last()), ws.last())
    }
}

/// FxHasher's result on a 64-bit machine: its state rotated left by 26 bits.
pub open spec fn fx_finish64(h: int) -> int {
    (h % 0x40_0000_0000) * 0x400_0000 + h / 0x40_0000_0000
}

/// One 32-bit half mixed into FxHasher's state on a 32-bit machine.
pub open spec fn fx_mix32(h: int, w: int) -> int {
    ((h + w) * 0x93d765dd) % 0x1_0000_0000
}

/// FxHasher's state on a 32-bit machine after the words, from 0: each word
/// is mixed in as its low half, then its high half.
pub open spec fn fx_state32(ws: Seq<int>) -> int
    decreases ws.len(),
{
    if ws.len() == 0 {
        0
    } else {
        fx_mix32(fx_mix32(fx_state32(ws.drop_last()), ws.last() % 0x1_0000_0000), ws.last() / 0x1_0000_0000)
    }
}

/// FxHasher's result on a 32-bit machine: its state rotated left by 15 bits.
pub open spec fn fx_finish32(h: int) -> int {
    (h % 0x2_0000) * 0x8000 + h / 0x2_0000
}

/// The hash of a fingerprint on a 64-bit machine.
pub open spec fn fingerprint_hash64(f: Fingerprint) -> int {
    fx_finish64(fx_state64(fingerprint_words(f)))
}

/// The hash of a fingerprint on a 32-bit machine.
pub open spec fn fingerprint_hash32(f: Fingerprint) -> int {
    fx_finish32(fx_state32(fingerprint_words(f)))
}

/// Hashes a file's metadata with rustc-hash's `FxHasher` through the derived
/// `Hash` of `Fingerprint`. Claimed, from rustc-hash's source: the derived
/// `Hash` writes the five fields in order as 64-bit words; FxHasher starts
/// at 0, turns its state `h` into `(h + w) * K` for each machine word `w`
/// (wrapping at the word size, K = 0xf1357aea2e62a9c5 on 64-bit machines,
/// 0x93d765dd on 32-bit ones, where each 64-bit word goes in as its low and
/// then its high half), and finishes by rotating left by 26 bits (15 on
/// 32-bit machines).
#[verifier::external_body]
fn fx_hash(stat: &Fingerprint) -> (r: u64)
    ensures
        usize::BITS == 64 ==> r as int == fingerprint_hash64(*stat),
        usize::BITS == 32 ==> r as int == fingerprint_hash32(*stat),
{
    let mut hasher = rustc_hash::FxHasher::default();
    stat.hash(&mut hasher);
    hasher.finish()
}

impl Fingerprint {
    /// The fingerprint of a file from its metadata.
    pub fn hash_value(&self) -> (r: u64)
        ensures
            usize::BITS == 64 ==> r as int == fingerprint_hash64(*self),
            usize::BITS == 32 ==> r as int == fingerprint_hash32(*self),
    {
        fx_hash(self)
    }
}

// ---------------------------------------------------------------- every field counts

proof fn lemma_mod_close(x: int, y: int)
    requires
        0 <= x < 2 * 0x1_0000_0000_0000_0000,
        0 <= y < 2 * 0x1_0000_0000_0000_0000,
        x % 0x1_0000_0000_0000_0000 == y % 0x1_0000_0000_0000_0000,
        -0x1_0000_0000_0000_0000 < x - y < 0x1_0000_0000_0000_0000,
    ensures
        x == y,
{
    let m: int = 0x1_0000_0000_0000_0000;
    lemma_fundamental_div_mod(x, m);
    lemma_fundamental_div_mod(y, m);
    lemma_mod_bound(x, m);
    lemma_mod_bound(y, m);
    assert(x == y) by (nonlinear_arith)
        requires
            x == m * (x / m) + x % m,
            y == m * (y / m) + y % m,
            x % m == y % m,
            0 <= x < 2 * m,
            0 <= y < 2 * m,
            -m < x - y < m,
            m > 0,
    ;
}

/// Multiplying by FxHasher's 64-bit constant loses nothing modulo 2^64: it
/// has an inverse there.
proof fn lemma_mul_k_injective(a: int, b: int)
    requires
        (a * 0xf1357aea2e62a9c5) % 0x1_0000_0000_0000_0000 == (b * 0xf1357aea2e62a9c5) % 0x1_0000_0000_0000_0000,
    ensures
        a % 0x1_0000_0000_0000_0000 == b % 0x1_0000_0000_0000_0000,
{
    let m: int = 0x1_0000_0000_0000_0000;
    let k: int = 0xf1357aea2e62a9c5;
    let ki: int = 0x781494a55daaed0d;
    let c: int = 8152770805060793744;
    assert(k * ki == 1 + c * m);
    lemma_mul_mod_noop_left(a * k, ki, m);
    lemma_mul_mod_noop_left(b * k, ki, m);
    lemma_mul_is_associative(a, k, ki);
    lemma_mul_is_associative(b, k, ki);
    assert(a * (k * ki) == m * (a * c) + a) by (nonlinear_arith)
        requires
            k * ki == 1 + c * m,
    ;
    assert(b * (k * ki) == m * (b * c) + b) by (nonlinear_arith)
        requires
            k * ki == 1 + c * m,
    ;
    lemma_mod_multiples_vanish(a * c, a, m);
    lemma_mod_multiples_vanish(b * c, b, m);
}

proof fn lemma_mix_injective(h1: int, w1: int, h2: int, w2: int)
    requires
        0 <= h1 < 0x1_0000_0000_0000_0000,
        0 <= h2 < 0x1_0000_0000_0000_0000,
        0 <= w1 < 0x1_0000_0000_0000_0000,
        0 <= w2 < 0x1_0000_0000_0000_0000,
        h1 == h2 || w1 == w2,
        fx_mix64(h1, w1) == fx_mix64(h2, w2),
    ensures
        h1 == h2 && w1 == w2,
{
    lemma_mul_k_injective(h1 + w1, h2 + w2);
    lemma_mod_close(h1 + w1, h2 + w2);
}

proof fn lemma_state_bound(ws: Seq<int>)
    ensures
        0 <= fx_state64(ws) < 0x1_0000_0000_0000_0000,
{
    if ws.len() > 0 {
        lemma_mod_bound((fx_state64(ws.drop_last()) + ws.last()) * 0xf1357aea2e62a9c5, 0x1_0000_0000_0000_0000);
    }
}

proof fn lemma_states_differ(wa: Seq<int>, wb: Seq<int>, j: int, k: int)
    requires
        wa.len() == wb.len(),
        0 <= j < k <= wa.len(),
        wa[j] != wb[j],
        forall|i: int| 0 <= i < wa.len() && i != j ==> wa[i] == wb[i],
        forall|i: int| 0 <= i < wa.len() ==> 0 <= #[trigger] wa[i] < 0x1_0000_0000_0000_0000,
        forall|i: int| 0 <= i < wb.len() ==> 0 <= #[trigger] wb[i] < 0x1_0000_0000_0000_0000,
    ensures
        fx_state64(wa.subrange(0, k)) != fx_state64(wb.subrange(0, k)),
    decreases k,
{
    let pa = wa.subrange(0, k - 1);
    let pb = wb.subrange(0, k - 1);
    assert(wa.subrange(0, k).drop_last() =~= pa);
    assert(wb.subrange(0, k).drop_last() =~= pb);
    lemma_state_bound(pa);
    lemma_state_bound(pb);
    if k == j + 1 {
        assert(pa =~= pb);
        if fx_state64(wa.subrange(0, k)) == fx_state64(wb.subrange(0, k)) {
            lemma_mix_injective(fx_state64(pa), wa[j], fx_state64(pb), wb[j]);
        }
    } else {
        lemma_states_differ(wa, wb, j, k - 1);
        if fx_state64(wa.subrange(0, k)) == fx_state64(wb.subrange(0, k)) {
            lemma_mix_injective(fx_state64(pa), wa[k - 1], fx_state64(pb), wb[k - 1]);
        }
    }
}

proof fn lemma_finish_injective(h1: int, h2: int)
    requires
        0 <= h1 < 0x1_0000_0000_0000_0000,
        0 <= h2 < 0x1_0000_0000_0000_0000,
        fx_finish64(h1) == fx_finish64(h2),
    ensures
        h1 == h2,
{
    let p: int = 0x40_0000_0000;
    let q: int = 0x400_0000;
    let (a1, b1) = (h1 % p, h1 / p);
    let (a2, b2) = (h2 % p, h2 / p);
    lemma_mod_bound(h1, p);
    lemma_mod_bound(h2, p);
    lemma_fundamental_div_mod(h1, p);
    lemma_fundamental_div_mod(h2, p);
    assert(0 <= b1 < q && 0 <= b2 < q) by (nonlinear_arith)
        requires
            h1 == p * b1 + a1,
            h2 == p * b2 + a2,
            0 <= a1 < p,
            0 <= a2 < p,
            0 <= h1 < p * q,
            0 <= h2 < p * q,
            p > 0,
    ;
    let f = fx_finish64(h1);
    lemma_fundamental_div_mod_converse(f, q, a1, b1);
    lemma_fundamental_div_mod_converse(f, q, a2, b2);
}

/// On a 64-bit machine, two fingerprints that differ in one field only,
/// whichever field it is, have different hashes: every field of the
/// metadata (size, modification and change times) enters the hash.
pub proof fn law_fingerprint_hash_fields(a: Fingerprint, b: Fingerprint, j: int)
    requires
        0 <= j < 5,
        fingerprint_fields(a)[j] != fingerprint_fields(b)[j],
        forall|i: int| 0 <= i < 5 && i != j ==> fingerprint_fields(a)[i] == fingerprint_fields(b)[i],
    ensures
        fingerprint_hash64(a) != fingerprint_hash64(b),
{
    let wa = fingerprint_words(a);
    let wb = fingerprint_words(b);
    assert forall|i: int| 0 <= i < 5 implies 0 <= #[trigger] wa[i] < 0x1_0000_0000_0000_0000 && 0 <= wb[i]
        < 0x1_0000_0000_0000_0000 && (wa[i] == wb[i] <==> fingerprint_fields(a)[i] == fingerprint_fields(b)[i]) by {
    }
    lemma_states_differ(wa, wb, j, 5);
    assert(wa.subrange(0, 5) =~= wa);
    assert(wb.subrange(0, 5) =~= wb);
    lemma_state_bound(wa);
    lemma_state_bound(wb);
    if fingerprint_hash64(a) == fingerprint_hash64(b) {
        lemma_finish_injective(fx_state64(wa), fx_state64(wb));
    }
}

} // verus!
