//! The rows of the record timeline and of the tag and project listings.

use vstd::prelude::*;
use crate::display::{format_colored, format_duration, painted, parse_colors_spec, duration_text, push_str};
use crate::numbers::{dec, decimal_chars, push_decimal};
use crate::text::{chars_of, is_white_space, law_trim_empty_iff_blank, string_of, trim, trim_spec};
use crate::types::opt_str_view;

verus! {

broadcast use vstd::string::group_string_axioms;

/// A record as the timeline reads it from the cache.
pub struct RecordWithTagsAndProject {
    pub id: String,
    pub name: Option<String>,
    pub status: String,
    pub start: i64,
    pub end: Option<i64>,
    pub project_id: Option<String>,
    pub project_name: Option<String>,
    pub project_color: Option<String>,
    pub tag_ids: Option<String>,
}

/// A tag as the listings read it from the cache.
pub struct TagWithColor {
    pub id: String,
    pub name: String,
    pub color: Option<String>,
}

/// A project as the listings read it from the cache.
pub struct ProjectWithColor {
    pub id: String,
    pub name: String,
    pub state: Option<String>,
    pub color: Option<String>,
}

// ---------------------------------------------------------------- names

/// What a listing shows for a name: the name itself, or "Untracked" where
/// it is absent or blank.
pub open spec fn shown_name(name: Option<Seq<char>>) -> Seq<char> {
    let raw = match name {
        Some(n) => n,
        None => seq![],
    };
    if trim_spec(raw).len() == 0 {
        "Untracked"@
    } else {
        raw
    }
}

fn shown_name_of(name: &Option<String>) -> (r: String)
    ensures
        r@ == shown_name(opt_str_view(*name)),
{
    match name {
        Some(n) => {
            let t = trim(n.as_str());
            if t.as_str().unicode_len() == 0 {
                "Untracked".to_string()
            } else {
                n.clone()
            }
        },
        None => {
            proof {
                assert(trim_spec(seq![]) =~= Seq::<char>::empty());
            }
            "Untracked".to_string()
        },
    }
}

/// The name column shows the record's name where it has a character other
/// than white space, and "Untracked" where the name is absent or blank.
pub proof fn law_shown_name(name: Option<Seq<char>>)
    ensures
        name is None ==> shown_name(name) == "Untracked"@,
        name matches Some(n) ==> ((forall|i: int| 0 <= i < n.len() ==> is_white_space(#[trigger] n[i]))
            ==> shown_name(name) == "Untracked"@),
        name matches Some(n) ==> ((exists|i: int| 0 <= i < n.len() && !is_white_space(#[trigger] n[i]))
            ==> shown_name(name) == n),
{
    match name {
        Some(n) => {
            law_trim_empty_iff_blank(n);
        },
        None => {
            law_trim_empty_iff_blank(seq![]);
        },
    }
}

// ---------------------------------------------------------------- tags of a record

/// A tag of the tag map: its identifier, name and stored colour list.
pub struct TagEntry {
    pub id: String,
    pub name: String,
    pub color: Option<String>,
}

/// The name and colour list of the last entry with the identifier.
pub open spec fn tag_lookup(map: Seq<TagEntry>, id: Seq<char>) -> Option<(Seq<char>, Option<Seq<char>>)>
    decreases map.len(),
{
    if map.len() == 0 {
        None
    } else if map.last().id@ == id {
        Some((map.last().name@, opt_str_view(map.last().color)))
    } else {
        tag_lookup(map.drop_last(), id)
    }
}

/// The pieces of a text between commas.
pub open spec fn split_commas(s: Seq<char>) -> Seq<Seq<char>>
    decreases s.len(),
{
    if s.len() == 0 {
        seq![seq![]]
    } else {
        let rest = split_commas(s.drop_last());
        if s.last() == ',' {
            rest.push(seq![])
        } else {
            rest.drop_last().push(rest.last().push(s.last()))
        }
    }
}

/// What a tag identifier is shown as: nothing if blank, else the tag's
/// painted name, or the identifier itself where the map lacks it.
pub open spec fn tag_piece(raw: Seq<char>, map: Seq<TagEntry>) -> Option<Seq<char>> {
    let id = trim_spec(raw);
    if id.len() == 0 {
        None
    } else {
        match tag_lookup(map, id) {
            Some((name, color)) => Some(painted(name, parse_colors_spec(color))),
            None => Some(id),
        }
    }
}

/// The shown pieces of a list of tag identifiers, in order.
pub open spec fn tag_pieces(ids: Seq<Seq<char>>, map: Seq<TagEntry>) -> Seq<Seq<char>>
    decreases ids.len(),
{
    if ids.len() == 0 {
        seq![]
    } else {
        let rest = tag_pieces(ids.drop_last(), map);
        match tag_piece(ids.last(), map) {
            Some(p) => rest.push(p),
            None => rest,
        }
    }
}

/// The pieces joined with ", ".
pub open spec fn join_comma(parts: Seq<Seq<char>>) -> Seq<char>
    decreases parts.len(),
{
    if parts.len() == 0 {
        seq![]
    } else if parts.len() == 1 {
        parts[0]
    } else {
        join_comma(parts.drop_last()) + seq![',', ' '] + parts.last()
    }
}

/// The tags column of the timeline: "-" where there are none.
pub open spec fn tags_text(tag_ids: Option<Seq<char>>, map: Seq<TagEntry>) -> Seq<char> {
    match tag_ids {
        Some(ids) => if trim_spec(ids).len() == 0 {
            "-"@
        } else {
            let parts = tag_pieces(split_commas(ids), map);
            if parts.len() == 0 {
                "-"@
            } else {
                join_comma(parts)
            }
        },
        None => "-"@,
    }
}

fn lookup_tag(map: &Vec<TagEntry>, id: &String) -> (r: Option<(String, Option<String>)>)
    ensures
        match tag_lookup(map@, id@) {
            Some((n, c)) => r matches Some(x) && x.0@ == n && opt_str_view(x.1) == c,
            None => r.is_none(),
        },
{
    let mut k = map.len();
    proof {
        assert(map@.subrange(0, map@.len() as int) =~= map@);
    }
    while k > 0
        invariant
            k <= map@.len(),
            tag_lookup(map@, id@) == tag_lookup(map@.subrange(0, k as int), id@),
        decreases k,
    {
        proof {
            assert(map@.subrange(0, k as int).drop_last() =~= map@.subrange(0, k - 1));
        }
        if map[k - 1].id == *id {
            let c = match &map[k - 1].color {
                Some(c) => Some(c.clone()),
                None => None,
            };
            return Some((map[k - 1].name.clone(), c));
        }
        k = k - 1;
    }
    None
}

/// Splits a text at its commas.
fn split_at_commas(s: &Vec<char>) -> (r: Vec<Vec<char>>)
    ensures
        r@.map_values(|x: Vec<char>| x@) == split_commas(s@),
{
    let mut parts: Vec<Vec<char>> = Vec::new();
    let mut cur: Vec<char> = Vec::new();
    let mut i: usize = 0;
    proof {
        assert(s@.subrange(0, 0) =~= seq![]);
    }
    while i < s.len()
        invariant
            i <= s@.len(),
            parts@.map_values(|x: Vec<char>| x@).push(cur@) == split_commas(s@.subrange(0, i as int)),
        decreases s@.len() - i,
    {
        let ghost pre = s@.subrange(0, i as int);
        let ghost post = s@.subrange(0, i + 1);
        proof {
            assert(post.drop_last() =~= pre);
            assert(post.last() == s@[i as int]);
        }
        if s[i] == ',' {
            let ghost before = parts@.map_values(|x: Vec<char>| x@);
            let done = cur;
            parts.push(done);
            cur = Vec::new();
            proof {
                assert(parts@.map_values(|x: Vec<char>| x@) =~= before.push(done@));
                assert(parts@.map_values(|x: Vec<char>| x@).push(cur@) =~= split_commas(post));
            }
        } else {
            let ghost cur_before = cur@;
            cur.push(s[i]);
            proof {
                let pv = parts@.map_values(|x: Vec<char>| x@);
                assert(pv.push(cur_before).drop_last() =~= pv);
                assert(pv.push(cur@) =~= split_commas(post));
            }
        }
        i = i + 1;
    }
    let ghost before = parts@.map_values(|x: Vec<char>| x@);
    parts.push(cur);
    proof {
        assert(s@.subrange(0, s@.len() as int) =~= s@);
        assert(parts@.map_values(|x: Vec<char>| x@) =~= before.push(parts@.last()@));
    }
    parts
}

/// The tags column of the timeline.
pub fn tags_column(tag_ids: &Option<String>, map: &Vec<TagEntry>) -> (r: String)
    ensures
        r@ == tags_text(opt_str_view(*tag_ids), map@),
{
    let ids = match tag_ids {
        Some(ids) => ids,
        None => return "-".to_string(),
    };
    let t = trim(ids.as_str());
    if t.as_str().unicode_len() == 0 {
        return "-".to_string();
    }
    let chars = chars_of(ids.as_str());
    let pieces = split_at_commas(&chars);
    let ghost pv = pieces@.map_values(|x: Vec<char>| x@);
    let mut out: Vec<char> = Vec::new();
    let mut count: usize = 0;
    let mut i: usize = 0;
    proof {
        assert(pv.subrange(0, 0) =~= seq![]);
    }
    while i < pieces.len()
        invariant
            i <= pieces@.len(),
            pv == pieces@.map_values(|x: Vec<char>| x@),
            count == tag_pieces(pv.subrange(0, i as int), map@).len(),
            count <= i,
            out@ == join_comma(tag_pieces(pv.subrange(0, i as int), map@)),
        decreases pieces@.len() - i,
    {
        let ghost pre = pv.subrange(0, i as int);
        let ghost post = pv.subrange(0, i + 1);
        proof {
            assert(post.drop_last() =~= pre);
            assert(post.last() == pieces@[i as int]@);
        }
        let raw = string_of(&pieces[i]);
        let id = trim(raw.as_str());
        if id.as_str().unicode_len() != 0 {
            let piece = match lookup_tag(map, &id) {
                Some((name, color)) => {
                    match &color {
                        Some(c) => format_colored(name.as_str(), Some(c.as_str())),
                        None => format_colored(name.as_str(), None),
                    }
                },
                None => id,
            };
            let ghost before = out@;
            if count > 0 {
                push_str(&mut out, ", ");
            }
            let ghost mid = out@;
            push_str(&mut out, piece.as_str());
            count = count + 1;
            proof {
                let parts = tag_pieces(post, map@);
                assert(parts == tag_pieces(pre, map@).push(piece@));
                if count == 1 {
                    assert(tag_pieces(pre, map@) =~= Seq::<Seq<char>>::empty());
                    assert(before =~= Seq::<char>::empty());
                    assert(parts =~= seq![piece@]);
                    assert(out@ =~= join_comma(parts));
                } else {
                    reveal_strlit(", ");
                    assert(parts.drop_last() == tag_pieces(pre, map@));
                    assert(mid =~= before + seq![',', ' ']);
                    assert(out@ =~= join_comma(parts));
                }
            }
        }
        i = i + 1;
    }
    proof {
        assert(pv.subrange(0, pieces@.len() as int) =~= pv);
    }
    if count == 0 {
        return "-".to_string();
    }
    string_of(&out)
}

// ---------------------------------------------------------------- rows

/// The project column of the timeline: the painted project name, or "-".
pub open spec fn project_text(name: Option<Seq<char>>, color: Option<Seq<char>>) -> Seq<char> {
    match name {
        Some(p) => if trim_spec(p).len() == 0 {
            "-"@
        } else {
            painted(p, parse_colors_spec(color))
        },
        None => "-"@,
    }
}

/// The decimal text of an integer, with a '-' before a negative one.
pub open spec fn int_text(n: int) -> Seq<char> {
    if n < 0 {
        seq!['-'] + dec((-n) as nat)
    } else {
        dec(n as nat)
    }
}

/// The decimal text of an `i64`.
pub fn i64_text(n: i64) -> (s: String)
    ensures
        s@ == int_text(n as int),
{
    if n < 0 {
        let m: u64 = if n == i64::MIN {
            9223372036854775808u64
        } else {
            (-n) as u64
        };
        let mut v: Vec<char> = Vec::new();
        v.push('-');
        push_decimal(&mut v, m);
        proof {
            assert(v@ =~= seq!['-'] + dec((-n) as nat));
        }
        string_of(&v)
    } else {
        let v = decimal_chars(n as u64);
        string_of(&v)
    }
}

/// The start column of the timeline: the start as local time where it was
/// formatted, else its milliseconds as a number.
pub open spec fn start_column(start: i64, start_text: Option<Seq<char>>) -> Seq<char> {
    match start_text {
        Some(t) => t,
        None => int_text(start as int),
    }
}

/// The end column of the timeline: the end as local time where the record
/// has an end and it was formatted, else "-".
pub open spec fn end_column(end: Option<i64>, end_text: Option<Seq<char>>) -> Seq<char> {
    match (end, end_text) {
        (Some(_), Some(t)) => t,
        _ => "-"@,
    }
}

/// The row of the timeline for a record. The start and end are given as
/// local time where they could be formatted; a record without an end lasts
/// until `now_ms`.
pub open spec fn timeline_row_spec(
    r: RecordWithTagsAndProject,
    map: Seq<TagEntry>,
    start_text: Option<Seq<char>>,
    end_text: Option<Seq<char>>,
    now_ms: i64,
) -> Seq<Seq<char>> {
    let end_ms = match r.end {
        Some(e) => e,
        None => now_ms,
    };
    seq![
        shown_name(opt_str_view(r.name)),
        start_column(r.start, start_text),
        end_column(r.end, end_text),
        duration_text(r.start as int, end_ms as int),
        tags_text(opt_str_view(r.tag_ids), map),
        project_text(opt_str_view(r.project_name), opt_str_view(r.project_color)),
    ]
}

/// The row of the timeline for a record.
pub fn timeline_row(
    r: &RecordWithTagsAndProject,
    map: &Vec<TagEntry>,
    start_text: Option<String>,
    end_text: Option<String>,
    now_ms: i64,
) -> (row: Vec<String>)
    requires
        i64::MIN <= (match r.end {
            Some(e) => e,
            None => now_ms,
        }) - r.start <= i64::MAX,
    ensures
        row@.map_values(|s: String| s@) == timeline_row_spec(
            *r,
            map@,
            opt_str_view(start_text),
            opt_str_view(end_text),
            now_ms,
        ),
{
    proof {
        reveal_strlit("-");
    }
    let ghost sv = opt_str_view(start_text);
    let ghost ev = opt_str_view(end_text);
    let name = shown_name_of(&r.name);
    let start_col = match start_text {
        Some(t) => t,
        None => i64_text(r.start),
    };
    let end_col = match (r.end, end_text) {
        (Some(_), Some(t)) => t,
        _ => "-".to_string(),
    };
    let end_ms = match r.end {
        Some(e) => e,
        None => now_ms,
    };
    let duration = format_duration(r.start, end_ms);
    let tags = tags_column(&r.tag_ids, map);
    let project = match &r.project_name {
        Some(p) => {
            let t = trim(p.as_str());
            if t.as_str().unicode_len() == 0 {
                "-".to_string()
            } else {
                match &r.project_color {
                    Some(c) => format_colored(p.as_str(), Some(c.as_str())),
                    None => format_colored(p.as_str(), None),
                }
            }
        },
        None => "-".to_string(),
    };
    let mut row: Vec<String> = Vec::new();
    row.push(name);
    row.push(start_col);
    row.push(end_col);
    row.push(duration);
    row.push(tags);
    row.push(project);
    proof {
        assert(row@.map_values(|s: String| s@) =~= timeline_row_spec(*r, map@, sv, ev, now_ms));
    }
    row
}

/// The rows of a listing of names with colours: one painted cell per name
/// that is not blank.
pub open spec fn name_rows(items: Seq<(Seq<char>, Option<Seq<char>>)>) -> Seq<Seq<Seq<char>>>
    decreases items.len(),
{
    if items.len() == 0 {
        seq![]
    } else {
        let rest = name_rows(items.drop_last());
        let (name, color) = items.last();
        if trim_spec(name).len() == 0 {
            rest
        } else {
            rest.push(seq![painted(name, parse_colors_spec(color))])
        }
    }
}

/// The names and colours of the tags.
pub open spec fn tags_items(tags: Seq<TagWithColor>) -> Seq<(Seq<char>, Option<Seq<char>>)> {
    tags.map_values(|t: TagWithColor| (t.name@, opt_str_view(t.color)))
}

/// The names and colours of the projects.
pub open spec fn projects_items(ps: Seq<ProjectWithColor>) -> Seq<(Seq<char>, Option<Seq<char>>)> {
    ps.map_values(|p: ProjectWithColor| (p.name@, opt_str_view(p.color)))
}

fn painted_cell(name: &String, color: &Option<String>) -> (r: Vec<String>)
    ensures
        r@.map_values(|s: String| s@) == seq![painted(name@, parse_colors_spec(opt_str_view(*color)))],
{
    let cell = match color {
        Some(c) => format_colored(name.as_str(), Some(c.as_str())),
        None => format_colored(name.as_str(), None),
    };
    let mut row: Vec<String> = Vec::new();
    row.push(cell);
    proof {
        assert(row@.map_values(|s: String| s@) =~= seq![painted(name@, parse_colors_spec(opt_str_view(*color)))]);
    }
    row
}

/// The rows of the tag listing.
pub fn tag_rows(tags: &Vec<TagWithColor>) -> (rows: Vec<Vec<String>>)
    ensures
        rows@.map_values(|r: Vec<String>| r@.map_values(|s: String| s@)) == name_rows(tags_items(tags@)),
{
    let ghost items = tags_items(tags@);
    let mut rows: Vec<Vec<String>> = Vec::new();
    let mut i: usize = 0;
    proof {
        assert(items.subrange(0, 0) =~= seq![]);
    }
    while i < tags.len()
        invariant
            i <= tags@.len(),
            items == tags_items(tags@),
            rows@.map_values(|r: Vec<String>| r@.map_values(|s: String| s@)) == name_rows(items.subrange(0, i as int)),
        decreases tags@.len() - i,
    {
        proof {
            assert(items.subrange(0, i + 1).drop_last() =~= items.subrange(0, i as int));
        }
        let t = trim(tags[i].name.as_str());
        if t.as_str().unicode_len() != 0 {
            let row = painted_cell(&tags[i].name, &tags[i].color);
            let ghost before = rows@.map_values(|r: Vec<String>| r@.map_values(|s: String| s@));
            rows.push(row);
            proof {
                assert(rows@.map_values(|r: Vec<String>| r@.map_values(|s: String| s@)) =~= before.push(
                    row@.map_values(|s: String| s@),
                ));
            }
        }
        i = i + 1;
    }
    proof {
        assert(items.subrange(0, tags@.len() as int) =~= items);
    }
    rows
}

/// The rows of the project listing.
pub fn project_rows(projects: &Vec<ProjectWithColor>) -> (rows: Vec<Vec<String>>)
    ensures
        rows@.map_values(|r: Vec<String>| r@.map_values(|s: String| s@)) == name_rows(projects_items(projects@)),
{
    let ghost items = projects_items(projects@);
    let mut rows: Vec<Vec<String>> = Vec::new();
    let mut i: usize = 0;
    proof {
        assert(items.subrange(0, 0) =~= seq![]);
    }
    while i < projects.len()
        invariant
            i <= projects@.len(),
            items == projects_items(projects@),
            rows@.map_values(|r: Vec<String>| r@.map_values(|s: String| s@)) == name_rows(items.subrange(0, i as int)),
        decreases projects@.len() - i,
    {
        proof {
            assert(items.subrange(0, i + 1).drop_last() =~= items.subrange(0, i as int));
        }
        let t = trim(projects[i].name.as_str());
        if t.as_str().unicode_len() != 0 {
            let row = painted_cell(&projects[i].name, &projects[i].color);
            let ghost before = rows@.map_values(|r: Vec<String>| r@.map_values(|s: String| s@));
            rows.push(row);
            proof {
                assert(rows@.map_values(|r: Vec<String>| r@.map_values(|s: String| s@)) =~= before.push(
                    row@.map_values(|s: String| s@),
                ));
            }
        }
        i = i + 1;
    }
    proof {
        assert(items.subrange(0, projects@.len() as int) =~= items);
    }
    rows
}

} // verus!
