//! The framed table that the listings are printed in, as a list of lines.

use vstd::prelude::*;
use crate::display::{pad_cell, pad_spec, push_str, visible_len, visible_len_spec};
use crate::text::string_of;

verus! {

broadcast use vstd::string::group_string_axioms;

/// The number of bytes of a text in UTF-8.
pub open spec fn utf8_len(s: Seq<char>) -> nat {
    vstd::utf8::encode_utf8(s).len()
}

/// The `i`-th width, or 0 past the end.
pub open spec fn at_or_zero(ws: Seq<nat>, i: int) -> nat {
    if 0 <= i < ws.len() {
        ws[i]
    } else {
        0
    }
}

/// Column widths after a row: wide enough for the row's cells as well.
pub open spec fn widen(ws: Seq<nat>, row: Seq<Seq<char>>) -> Seq<nat> {
    let n = if ws.len() >= row.len() {
        ws.len()
    } else {
        row.len()
    };
    Seq::new(
        n,
        |i: int|
            {
                let a = at_or_zero(ws, i);
                let b = if i < row.len() {
                    visible_len_spec(row[i])
                } else {
                    0
                };
                if a >= b {
                    a
                } else {
                    b
                }
            },
    )
}

/// The widths of the headers, in bytes (as std's `str::len` gives them).
pub open spec fn header_widths(headers: Seq<Seq<char>>) -> Seq<nat> {
    headers.map_values(|h: Seq<char>| (utf8_len(h) as usize) as nat)
}

/// The column widths of a table: each at least its header's byte length and
/// the visible length of every cell below it.
pub open spec fn table_widths(headers: Seq<Seq<char>>, rows: Seq<Seq<Seq<char>>>) -> Seq<nat>
    decreases rows.len(),
{
    if rows.len() == 0 {
        header_widths(headers)
    } else {
        widen(table_widths(headers, rows.drop_last()), rows.last())
    }
}

/// The width of a table line: each column with its two spaces and bar, plus
/// the opening bar.
pub open spec fn widths_total(ws: Seq<nat>) -> nat
    decreases ws.len(),
{
    if ws.len() == 0 {
        0
    } else {
        widths_total(ws.drop_last()) + ws.last() + 3
    }
}

pub open spec fn repeat(c: char, k: nat) -> Seq<char> {
    Seq::new(k, |i: int| c)
}

/// The border pieces of the first `k` columns.
pub open spec fn border_from(ws: Seq<nat>, k: int) -> Seq<char>
    decreases k,
{
    if k <= 0 {
        seq![]
    } else {
        border_from(ws, k - 1) + repeat('-', ws[k - 1] + 2) + seq!['+']
    }
}

/// The line above and below the header and below the rows.
pub open spec fn border_line(ws: Seq<nat>) -> Seq<char> {
    seq!['+'] + border_from(ws, ws.len() as int)
}

/// The first `k` cells, each padded to its column's width.
pub open spec fn cells_from(cells: Seq<Seq<char>>, ws: Seq<nat>, k: int) -> Seq<char>
    decreases k,
{
    if k <= 0 {
        seq![]
    } else {
        cells_from(cells, ws, k - 1) + seq![' '] + pad_spec(cells[k - 1], ws[k - 1]) + seq![' ', '|']
    }
}

/// The cells of a row, with empty cells for the columns it lacks.
pub open spec fn filled(row: Seq<Seq<char>>, n: nat) -> Seq<Seq<char>> {
    Seq::new(n, |i: int| if i < row.len() { row[i] } else { seq![] })
}

/// The header line.
pub open spec fn header_line(headers: Seq<Seq<char>>, ws: Seq<nat>) -> Seq<char> {
    seq!['|'] + cells_from(headers, ws, headers.len() as int)
}

/// The line of a row.
pub open spec fn row_line(row: Seq<Seq<char>>, ws: Seq<nat>) -> Seq<char> {
    seq!['|'] + cells_from(filled(row, ws.len()), ws, ws.len() as int)
}

/// The line that stands for an empty table: "(no entries)" centred.
pub open spec fn empty_line(ws: Seq<nat>) -> Seq<char> {
    let total = widths_total(ws) - 1;
    let pad = if total >= 12 {
        total - 12
    } else {
        0
    };
    let left = pad / 2;
    let right = pad - left;
    seq!['|'] + repeat(' ', left as nat) + "(no entries)"@ + repeat(' ', right as nat) + seq!['|']
}

/// The lines of a table: the title, if any, the header between borders,
/// a line per row (or the empty line), and a closing border.
pub open spec fn table_lines(
    headers: Seq<Seq<char>>,
    rows: Seq<Seq<Seq<char>>>,
    title: Option<Seq<char>>,
) -> Seq<Seq<char>> {
    let ws = table_widths(headers, rows);
    let top = match title {
        Some(t) => seq![t],
        None => seq![],
    };
    let body = if rows.len() == 0 {
        seq![empty_line(ws)]
    } else {
        rows.map_values(|r: Seq<Seq<char>>| row_line(r, ws))
    };
    top + seq![border_line(ws), header_line(headers, ws), border_line(ws)] + body + seq![border_line(ws)]
}

/// The texts of a list of strings.
pub open spec fn strs_v(v: Seq<String>) -> Seq<Seq<char>> {
    v.map_values(|s: String| s@)
}

/// The texts of a list of rows.
pub open spec fn rows_v(v: Seq<Vec<String>>) -> Seq<Seq<Seq<char>>> {
    v.map_values(|r: Vec<String>| strs_v(r@))
}

proof fn lemma_total_bound(ws: Seq<nat>, i: int)
    requires
        0 <= i < ws.len(),
    ensures
        ws[i] + 3 <= widths_total(ws),
        widths_total(ws.subrange(0, i)) + ws[i] + 3 <= widths_total(ws),
    decreases ws.len(),
{
    if i < ws.len() - 1 {
        lemma_total_bound(ws.drop_last(), i);
        assert(ws.drop_last().subrange(0, i) =~= ws.subrange(0, i));
    } else {
        assert(ws.drop_last() =~= ws.subrange(0, i));
    }
}

proof fn lemma_total_prefix(ws: Seq<nat>, i: int)
    requires
        0 <= i <= ws.len(),
    ensures
        widths_total(ws.subrange(0, i)) <= widths_total(ws),
    decreases ws.len() - i,
{
    if i < ws.len() {
        lemma_total_prefix(ws, i + 1);
        assert(ws.subrange(0, i + 1).drop_last() =~= ws.subrange(0, i));
    } else {
        assert(ws.subrange(0, i) =~= ws);
    }
}

/// The column widths of a table.
fn compute_widths(headers: &Vec<String>, rows: &Vec<Vec<String>>) -> (ws: Vec<usize>)
    ensures
        ws@.map_values(|w: usize| w as nat) == table_widths(strs_v(headers@), rows_v(rows@)),
{
    let ghost hv = strs_v(headers@);
    let ghost rv = rows_v(rows@);
    let mut ws: Vec<usize> = Vec::new();
    let mut i: usize = 0;
    while i < headers.len()
        invariant
            i <= headers@.len(),
            hv == strs_v(headers@),
            ws@.map_values(|w: usize| w as nat) == header_widths(hv.subrange(0, i as int)),
        decreases headers@.len() - i,
    {
        let ghost before = ws@;
        let hl = headers[i].as_str().len();
        ws.push(hl);
        proof {
            assert(hl as nat == (utf8_len(hv[i as int]) as usize) as nat);
            assert(hv.subrange(0, i + 1) =~= hv.subrange(0, i as int).push(hv[i as int]));
            assert(header_widths(hv.subrange(0, i as int)).len() == i);
            assert(before.map_values(|w: usize| w as nat).len() == i);
            assert(before.len() == i);
            assert(ws@ =~= before.push(hl));
            let post = hv.subrange(0, i + 1);
            let pre = hv.subrange(0, i as int);
            assert forall|k: int| 0 <= k < i implies #[trigger] post[k] == pre[k] by {}
            assert forall|k: int| 0 <= k < i + 1 implies (#[trigger] ws@[k]) as nat == (utf8_len(post[k]) as usize) as nat by {
                if k < i {
                    assert(ws@[k] == before[k]);
                    assert(before.map_values(|w: usize| w as nat)[k] == header_widths(pre)[k]);
                }
            }
            assert(ws@.map_values(|w: usize| w as nat) =~= header_widths(hv.subrange(0, i + 1)));
        }
        i = i + 1;
    }
    proof {
        assert(hv.subrange(0, headers@.len() as int) =~= hv);
        assert(rv.subrange(0, 0) =~= seq![]);
    }
    let mut r: usize = 0;
    while r < rows.len()
        invariant
            r <= rows@.len(),
            hv == strs_v(headers@),
            rv == rows_v(rows@),
            ws@.map_values(|w: usize| w as nat) == table_widths(hv, rv.subrange(0, r as int)),
        decreases rows@.len() - r,
    {
        let row = &rows[r];
        let ghost w0 = ws@.map_values(|w: usize| w as nat);
        let ghost cells = strs_v(row@);
        proof {
            assert(cells.subrange(0, 0) =~= seq![]);
            assert(widen(w0, cells.subrange(0, 0)) =~= w0);
        }
        let mut j: usize = 0;
        while j < row.len()
            invariant
                j <= row@.len(),
                cells == strs_v(row@),
                ws@.map_values(|w: usize| w as nat) == widen(w0, cells.subrange(0, j as int)),
            decreases row@.len() - j,
        {
            let v = visible_len(row[j].as_str());
            let ghost wsv = ws@.map_values(|w: usize| w as nat);
            proof {
                assert(wsv.len() == (if w0.len() >= j { w0.len() } else { j as nat }));
            }
            if j < ws.len() {
                if ws[j] < v {
                    ws.set(j, v);
                }
            } else {
                ws.push(v);
            }
            proof {
                let post = cells.subrange(0, j + 1);
                let pre = cells.subrange(0, j as int);
                let nw = ws@.map_values(|w: usize| w as nat);
                let target = widen(w0, post);
                assert(post[j as int] == row@[j as int]@);
                assert(nw.len() == target.len());
                assert forall|k: int| 0 <= k < nw.len() implies nw[k] == target[k] by {
                    if k < j {
                        assert(post[k] == pre[k]);
                        assert(nw[k] == wsv[k]);
                    } else if k > j {
                        assert(nw[k] == wsv[k]);
                    } else {
                        assert(k < wsv.len() ==> wsv[k] == at_or_zero(w0, k));
                    }
                }
                assert(nw =~= target);
            }
            j = j + 1;
        }
        proof {
            assert(cells.subrange(0, row@.len() as int) =~= cells);
            assert(rv.subrange(0, r + 1).drop_last() =~= rv.subrange(0, r as int));
            assert(rv.subrange(0, r + 1).last() == cells);
        }
        r = r + 1;
    }
    proof {
        assert(rv.subrange(0, rows@.len() as int) =~= rv);
    }
    ws
}

/// Appends `k` copies of a character.
fn push_repeat(out: &mut Vec<char>, c: char, k: usize)
    ensures
        final(out)@ == old(out)@ + repeat(c, k as nat),
{
    let ghost start = out@;
    let mut i: usize = 0;
    while i < k
        invariant
            i <= k,
            out@ == start + repeat(c, i as nat),
        decreases k - i,
    {
        out.push(c);
        i = i + 1;
        proof {
            assert(out@ =~= start + repeat(c, i as nat));
        }
    }
}

fn border_chars(ws: &Vec<usize>) -> (v: Vec<char>)
    requires
        widths_total(ws@.map_values(|w: usize| w as nat)) <= usize::MAX,
    ensures
        v@ == border_line(ws@.map_values(|w: usize| w as nat)),
{
    let ghost wv = ws@.map_values(|w: usize| w as nat);
    let mut v: Vec<char> = Vec::new();
    v.push('+');
    let mut i: usize = 0;
    while i < ws.len()
        invariant
            i <= ws@.len(),
            wv == ws@.map_values(|w: usize| w as nat),
            widths_total(wv) <= usize::MAX,
            v@ == seq!['+'] + border_from(wv, i as int),
        decreases ws@.len() - i,
    {
        proof {
            lemma_total_bound(wv, i as int);
        }
        push_repeat(&mut v, '-', ws[i] + 2);
        v.push('+');
        i = i + 1;
        proof {
            assert(v@ =~= seq!['+'] + border_from(wv, i as int));
        }
    }
    v
}

fn cells_chars(cells: &Vec<String>, ws: &Vec<usize>, count: usize) -> (v: Vec<char>)
    requires
        count <= ws@.len(),
    ensures
        v@ == seq!['|'] + cells_from(filled(strs_v(cells@), count as nat), ws@.map_values(|w: usize| w as nat), count as int),
{
    let ghost wv = ws@.map_values(|w: usize| w as nat);
    let ghost cv = filled(strs_v(cells@), count as nat);
    let mut v: Vec<char> = Vec::new();
    v.push('|');
    let mut i: usize = 0;
    while i < count
        invariant
            count <= ws@.len(),
            i <= count,
            wv == ws@.map_values(|w: usize| w as nat),
            cv == filled(strs_v(cells@), count as nat),
            v@ == seq!['|'] + cells_from(cv, wv, i as int),
        decreases count - i,
    {
        let cell = if i < cells.len() {
            pad_cell(cells[i].as_str(), ws[i])
        } else {
            pad_cell("", ws[i])
        };
        proof {
            assert(i < cells@.len() ==> cv[i as int] == cells@[i as int]@);
            assert(i >= cells@.len() ==> cv[i as int] == Seq::<char>::empty());
            assert(wv[i as int] == ws@[i as int] as nat);
            reveal_strlit("");
            assert(cell@ == pad_spec(cv[i as int], wv[i as int]));
        }
        let ghost before = v@;
        v.push(' ');
        push_str(&mut v, cell.as_str());
        v.push(' ');
        v.push('|');
        i = i + 1;
        proof {
            assert(v@ =~= before + seq![' '] + pad_spec(cv[i - 1], wv[i - 1]) + seq![' ', '|']);
            assert(v@ =~= seq!['|'] + cells_from(cv, wv, i as int));
        }
    }
    v
}

fn empty_chars(ws: &Vec<usize>) -> (v: Vec<char>)
    requires
        ws@.len() > 0,
        widths_total(ws@.map_values(|w: usize| w as nat)) <= usize::MAX,
    ensures
        v@ == empty_line(ws@.map_values(|w: usize| w as nat)),
{
    let ghost wv = ws@.map_values(|w: usize| w as nat);
    let mut total: usize = 0;
    let mut i: usize = 0;
    while i < ws.len()
        invariant
            i <= ws@.len(),
            wv == ws@.map_values(|w: usize| w as nat),
            widths_total(wv) <= usize::MAX,
            total == widths_total(wv.subrange(0, i as int)),
        decreases ws@.len() - i,
    {
        proof {
            lemma_total_bound(wv, i as int);
            assert(wv.subrange(0, i + 1).drop_last() =~= wv.subrange(0, i as int));
        }
        total = total + ws[i] + 3;
        i = i + 1;
    }
    proof {
        assert(wv.subrange(0, ws@.len() as int) =~= wv);
        lemma_total_bound(wv, 0);
    }
    let total = total - 1;
    let pad: usize = if total >= 12 {
        total - 12
    } else {
        0
    };
    let left = pad / 2;
    let right = pad - left;
    let mut v: Vec<char> = Vec::new();
    v.push('|');
    push_repeat(&mut v, ' ', left);
    push_str(&mut v, "(no entries)");
    push_repeat(&mut v, ' ', right);
    v.push('|');
    proof {
        assert(v@ =~= empty_line(wv));
    }
    v
}

/// The lines of the framed table of the given headers and rows, under an
/// optional title.
pub fn render_table(headers: &Vec<String>, rows: &Vec<Vec<String>>, title: Option<&str>) -> (lines: Vec<String>)
    requires
        headers@.len() > 0 || rows@.len() > 0,
        widths_total(table_widths(strs_v(headers@), rows_v(rows@))) <= usize::MAX,
    ensures
        strs_v(lines@) == table_lines(
            strs_v(headers@),
            rows_v(rows@),
            match title {
                Some(t) => Some(t@),
                None => None,
            },
        ),
{
    let ghost hv = strs_v(headers@);
    let ghost rv = rows_v(rows@);
    let ws = compute_widths(headers, rows);
    let ghost wv = ws@.map_values(|w: usize| w as nat);
    let mut lines: Vec<String> = Vec::new();
    match title {
        Some(t) => {
            lines.push(t.to_string());
        },
        None => {},
    }
    let ghost top = strs_v(lines@);
    let border = string_of(&border_chars(&ws));
    proof {
        lemma_widths_cover_headers(hv, rv);
        assert(filled(hv, hv.len()) =~= hv);
    }
    let header = string_of(&cells_chars(headers, &ws, headers.len()));
    lines.push(border.clone());
    lines.push(header);
    lines.push(border.clone());
    let ghost head = strs_v(lines@);
    proof {
        assert(head =~= top + seq![border_line(wv), header_line(hv, wv), border_line(wv)]);
    }
    if rows.len() == 0 {
        proof {
            assert(header_widths(hv).len() == hv.len());
        }
        let e = string_of(&empty_chars(&ws));
        lines.push(e);
    } else {
        let mut r: usize = 0;
        while r < rows.len()
            invariant
                r <= rows@.len(),
                rv == rows_v(rows@),
                wv == ws@.map_values(|w: usize| w as nat),
                wv == table_widths(hv, rv),
                strs_v(lines@) == head + rv.subrange(0, r as int).map_values(
                    |x: Seq<Seq<char>>| row_line(x, wv),
                ),
            decreases rows@.len() - r,
        {
            let line = string_of(&cells_chars(&rows[r], &ws, ws.len()));
            let ghost before = lines@;
            lines.push(line);
            proof {
                assert(rv[r as int] == strs_v(rows@[r as int]@));
                assert(strs_v(lines@) =~= strs_v(before).push(line@));
                assert(rv.subrange(0, r + 1).map_values(|x: Seq<Seq<char>>| row_line(x, wv)) =~= rv.subrange(
                    0,
                    r as int,
                ).map_values(|x: Seq<Seq<char>>| row_line(x, wv)).push(row_line(rv[r as int], wv)));
            }
            r = r + 1;
        }
        proof {
            assert(rv.subrange(0, rows@.len() as int) =~= rv);
        }
    }
    let ghost before_last = lines@;
    lines.push(border);
    proof {
        assert(strs_v(lines@) =~= strs_v(before_last).push(border_line(wv)));
        assert(strs_v(lines@) =~= table_lines(hv, rv, match title {
            Some(t) => Some(t@),
            None => None,
        }));
    }
    lines
}

/// The widths cover at least the header columns.
proof fn lemma_widths_cover_headers(hv: Seq<Seq<char>>, rv: Seq<Seq<Seq<char>>>)
    ensures
        table_widths(hv, rv).len() >= hv.len(),
    decreases rv.len(),
{
    if rv.len() > 0 {
        lemma_widths_cover_headers(hv, rv.drop_last());
    }
}

} // verus!
