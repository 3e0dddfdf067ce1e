//! Why the framed tables line up on a terminal: colour codes show nothing,
//! so a text whose codes are all closed adds exactly its visible width when
//! it is put in front of another, and every row line of a table is as wide
//! as its border.

use vstd::prelude::*;
use crate::display::{
    colored, escape_end, fg_escape, fg_reset, lemma_escape_end, pad_spec, painted, visible_from,
    visible_len_spec, gradient, Rgb,
};
use crate::numbers::dec;
use crate::table::{
    at_or_zero, border_from, border_line, cells_from, empty_line, filled, header_line, header_widths, repeat,
    row_line, table_widths, utf8_len, widths_total,
};

verus! {

/// Whether every colour code at or after `i` ends within the text, and the
/// text does not end in an escape character that a following '[' would turn
/// into a code.
pub open spec fn codes_closed_from(s: Seq<char>, i: int) -> bool
    decreases s.len() - i,
{
    if i < 0 || i >= s.len() {
        true
    } else if s[i] == '\x1b' && i + 1 < s.len() && s[i + 1] == '[' {
        let e = escape_end(s, i + 2);
        proof {
            lemma_escape_end(s, i + 2);
        }
        e - 1 >= i + 2 && s[e - 1] == 'm' && codes_closed_from(s, e)
    } else if s[i] == '\x1b' && i + 1 == s.len() {
        false
    } else {
        codes_closed_from(s, i + 1)
    }
}

/// Whether every colour code of the text ends within it.
pub open spec fn codes_closed(s: Seq<char>) -> bool {
    codes_closed_from(s, 0)
}

/// Whether a text holds no escape character.
pub open spec fn plain(s: Seq<char>) -> bool {
    forall|i: int| 0 <= i < s.len() ==> s[i] != '\x1b'
}

proof fn lemma_escape_end_prefix(a: Seq<char>, b: Seq<char>, j: int)
    requires
        0 <= j <= a.len(),
        escape_end(a, j) - 1 >= j,
        a[escape_end(a, j) - 1] == 'm',
    ensures
        escape_end(a + b, j) == escape_end(a, j),
    decreases a.len() - j,
{
    let s = a + b;
    assert(s[j] == a[j]);
    if a[j] != 'm' {
        lemma_escape_end_prefix(a, b, j + 1);
    }
}

proof fn lemma_escape_end_shift(a: Seq<char>, b: Seq<char>, k: int)
    requires
        0 <= k,
    ensures
        escape_end(a + b, a.len() + k) == a.len() + escape_end(b, k),
    decreases b.len() - k,
{
    let s = a + b;
    if k < b.len() {
        assert(s[a.len() + k] == b[k]);
        if b[k] != 'm' {
            lemma_escape_end_shift(a, b, k + 1);
        }
    }
}

proof fn lemma_visible_shift(a: Seq<char>, b: Seq<char>, k: int)
    requires
        0 <= k,
    ensures
        visible_from(a + b, a.len() + k) == visible_from(b, k),
    decreases b.len() - k,
{
    let s = a + b;
    if k < b.len() {
        assert(s[a.len() + k] == b[k]);
        if k + 1 < b.len() {
            assert(s[a.len() + k + 1] == b[k + 1]);
        }
        if b[k] == '\x1b' && k + 1 < b.len() && b[k + 1] == '[' {
            lemma_escape_end_shift(a, b, k + 2);
            lemma_escape_end(b, k + 2);
            lemma_visible_shift(a, b, escape_end(b, k + 2));
        } else {
            lemma_visible_shift(a, b, k + 1);
        }
    }
}

proof fn lemma_closed_shift(a: Seq<char>, b: Seq<char>, k: int)
    requires
        0 <= k,
    ensures
        codes_closed_from(a + b, a.len() + k) == codes_closed_from(b, k),
    decreases b.len() - k,
{
    let s = a + b;
    if k < b.len() {
        assert(s[a.len() + k] == b[k]);
        if k + 1 < b.len() {
            assert(s[a.len() + k + 1] == b[k + 1]);
        }
        if b[k] == '\x1b' && k + 1 < b.len() && b[k + 1] == '[' {
            lemma_escape_end_shift(a, b, k + 2);
            lemma_escape_end(b, k + 2);
            let e = escape_end(b, k + 2);
            if e - 1 >= k + 2 {
                assert(s[a.len() + e - 1] == b[e - 1]);
            }
            lemma_closed_shift(a, b, e);
        } else {
            lemma_closed_shift(a, b, k + 1);
        }
    }
}

/// A text whose codes are closed adds its visible width to what follows.
pub proof fn lemma_visible_concat(a: Seq<char>, b: Seq<char>, i: int)
    requires
        0 <= i <= a.len(),
        codes_closed_from(a, i),
    ensures
        visible_from(a + b, i) == visible_from(a, i) + visible_from(b, 0),
        codes_closed(b) ==> codes_closed_from(a + b, i),
    decreases a.len() - i,
{
    let s = a + b;
    if i == a.len() {
        lemma_visible_shift(a, b, 0);
        lemma_closed_shift(a, b, 0);
    } else {
        assert(s[i] == a[i]);
        if i + 1 < a.len() {
            assert(s[i + 1] == a[i + 1]);
        }
        if a[i] == '\x1b' && i + 1 < a.len() && a[i + 1] == '[' {
            lemma_escape_end(a, i + 2);
            lemma_escape_end_prefix(a, b, i + 2);
            lemma_visible_concat(a, b, escape_end(a, i + 2));
            let e = escape_end(a, i + 2);
            assert(s[e - 1] == a[e - 1]);
        } else {
            lemma_visible_concat(a, b, i + 1);
        }
    }
}

/// A text without escape characters shows all its characters and has no
/// open code.
pub proof fn lemma_plain(s: Seq<char>, i: int)
    requires
        plain(s),
        0 <= i <= s.len(),
    ensures
        visible_from(s, i) == s.len() - i,
        codes_closed_from(s, i),
    decreases s.len() - i,
{
    if i < s.len() {
        lemma_plain(s, i + 1);
    }
}

/// A text followed by spaces up to a width shows the larger of its width
/// and that one, and keeps its codes closed.
pub proof fn lemma_pad(c: Seq<char>, w: nat)
    requires
        codes_closed(c),
    ensures
        codes_closed(pad_spec(c, w)),
        visible_len_spec(pad_spec(c, w)) == if visible_len_spec(c) >= w {
            visible_len_spec(c)
        } else {
            w
        },
{
    if visible_len_spec(c) < w {
        let sp = Seq::new((w - visible_len_spec(c)) as nat, |i: int| ' ');
        lemma_plain(sp, 0);
        lemma_visible_concat(c, sp, 0);
    }
}

proof fn lemma_concat_closed(a: Seq<char>, b: Seq<char>)
    requires
        codes_closed(a),
        codes_closed(b),
    ensures
        codes_closed(a + b),
        visible_len_spec(a + b) == visible_len_spec(a) + visible_len_spec(b),
{
    lemma_visible_concat(a, b, 0);
}

/// The padded cells of a row show the widths of their columns, three more
/// each for the separators.
proof fn lemma_cells(cells: Seq<Seq<char>>, ws: Seq<nat>, k: int)
    requires
        0 <= k <= cells.len(),
        k <= ws.len(),
        forall|j: int| 0 <= j < k ==> codes_closed(#[trigger] cells[j]),
        forall|j: int| 0 <= j < k ==> visible_len_spec(#[trigger] cells[j]) <= ws[j],
    ensures
        codes_closed(cells_from(cells, ws, k)),
        visible_len_spec(cells_from(cells, ws, k)) == widths_total(ws.subrange(0, k)),
    decreases k,
{
    if k == 0 {
        assert(ws.subrange(0, 0) =~= Seq::<nat>::empty());
        lemma_plain(seq![], 0);
    } else {
        lemma_cells(cells, ws, k - 1);
        let prev = cells_from(cells, ws, k - 1);
        let sp = seq![' '];
        let pad = pad_spec(cells[k - 1], ws[k - 1]);
        let end = seq![' ', '|'];
        lemma_plain(sp, 0);
        lemma_plain(end, 0);
        lemma_pad(cells[k - 1], ws[k - 1]);
        lemma_concat_closed(prev, sp);
        lemma_concat_closed(prev + sp, pad);
        lemma_concat_closed(prev + sp + pad, end);
        assert(ws.subrange(0, k).drop_last() =~= ws.subrange(0, k - 1));
    }
}

proof fn lemma_border_from(ws: Seq<nat>, k: int)
    requires
        0 <= k <= ws.len(),
    ensures
        plain(border_from(ws, k)),
        border_from(ws, k).len() == widths_total(ws.subrange(0, k)),
    decreases k,
{
    if k == 0 {
        assert(ws.subrange(0, 0) =~= Seq::<nat>::empty());
    } else {
        lemma_border_from(ws, k - 1);
        assert(ws.subrange(0, k).drop_last() =~= ws.subrange(0, k - 1));
        let a = border_from(ws, k - 1);
        let b = repeat('-', ws[k - 1] + 2);
        let all = a + b + seq!['+'];
        assert forall|i: int| 0 <= i < all.len() implies all[i] != '\x1b' by {
            if i < a.len() {
                assert(all[i] == a[i]);
            } else if i < a.len() + b.len() {
                assert(all[i] == b[i - a.len()]);
            }
        }
    }
}

/// A border line shows one more character than the columns' total width.
pub proof fn lemma_border(ws: Seq<nat>)
    ensures
        plain(border_line(ws)),
        visible_len_spec(border_line(ws)) == widths_total(ws) + 1,
{
    lemma_border_from(ws, ws.len() as int);
    assert(ws.subrange(0, ws.len() as int) =~= ws);
    let b = border_line(ws);
    let f = border_from(ws, ws.len() as int);
    assert forall|i: int| 0 <= i < b.len() implies b[i] != '\x1b' by {
        if i > 0 {
            assert(b[i] == f[i - 1]);
        }
    }
    lemma_plain(b, 0);
}

/// The columns of a table are as many as the longest row has cells, and
/// each is at least as wide as every cell of it.
proof fn lemma_widths_cover_rows(h: Seq<Seq<char>>, rows: Seq<Seq<Seq<char>>>, r: int, j: int)
    requires
        0 <= r < rows.len(),
        0 <= j < rows[r].len(),
    ensures
        j < table_widths(h, rows).len(),
        visible_len_spec(rows[r][j]) <= table_widths(h, rows)[j],
    decreases rows.len(),
{
    let prev = table_widths(h, rows.drop_last());
    if r < rows.len() - 1 {
        lemma_widths_cover_rows(h, rows.drop_last(), r, j);
        assert(rows.drop_last()[r] == rows[r]);
        assert(at_or_zero(prev, j) == prev[j]);
    }
}

/// Every row line of a table shows as many characters as its border, where
/// the colour codes of the row's cells are closed: the columns line up.
pub proof fn law_rows_align(headers: Seq<Seq<char>>, rows: Seq<Seq<Seq<char>>>, r: int)
    requires
        0 <= r < rows.len(),
        forall|j: int| 0 <= j < rows[r].len() ==> codes_closed(#[trigger] rows[r][j]),
    ensures
        visible_len_spec(row_line(rows[r], table_widths(headers, rows))) == visible_len_spec(
            border_line(table_widths(headers, rows)),
        ),
{
    let ws = table_widths(headers, rows);
    let row = rows[r];
    if row.len() > 0 {
        lemma_widths_cover_rows(headers, rows, r, row.len() - 1);
    }
    let cells = filled(row, ws.len());
    assert forall|j: int| 0 <= j < ws.len() implies codes_closed(#[trigger] cells[j])
        && visible_len_spec(cells[j]) <= ws[j] by {
        if j < row.len() {
            lemma_widths_cover_rows(headers, rows, r, j);
        } else {
            lemma_plain(seq![], 0);
        }
    }
    lemma_cells(cells, ws, ws.len() as int);
    assert(ws.subrange(0, ws.len() as int) =~= ws);
    lemma_plain(seq!['|'], 0);
    lemma_concat_closed(seq!['|'], cells_from(cells, ws, ws.len() as int));
    lemma_border(ws);
}

/// A text takes at least one byte of UTF-8 per character.
proof fn lemma_utf8_len(s: Seq<char>)
    ensures
        utf8_len(s) >= s.len(),
    decreases s.len(),
{
    if s.len() > 0 {
        lemma_utf8_len(s.drop_first());
    }
}

/// Columns are at least as wide as their headers, and no more numerous
/// than the headers where no row is longer.
proof fn lemma_widths_cover_header(h: Seq<Seq<char>>, rows: Seq<Seq<Seq<char>>>, j: int)
    requires
        0 <= j < h.len(),
        forall|r: int| 0 <= r < rows.len() ==> (#[trigger] rows[r]).len() <= h.len(),
    ensures
        table_widths(h, rows).len() == h.len(),
        table_widths(h, rows)[j] >= header_widths(h)[j],
    decreases rows.len(),
{
    if rows.len() > 0 {
        assert forall|r: int| 0 <= r < rows.drop_last().len() implies (#[trigger] rows.drop_last()[r]).len()
            <= h.len() by {
            assert(rows.drop_last()[r] == rows[r]);
        }
        lemma_widths_cover_header(h, rows.drop_last(), j);
        let prev = table_widths(h, rows.drop_last());
        assert(rows[rows.len() - 1].len() <= h.len());
        assert(at_or_zero(prev, j) == prev[j]);
    }
}

/// The header line of a table shows as many characters as its border, where
/// the headers hold no escape character and no row is longer than the
/// headers.
pub proof fn law_header_aligns(headers: Seq<Seq<char>>, rows: Seq<Seq<Seq<char>>>)
    requires
        forall|j: int| 0 <= j < headers.len() ==> plain(#[trigger] headers[j]),
        forall|j: int| 0 <= j < headers.len() ==> utf8_len(#[trigger] headers[j]) <= usize::MAX,
        forall|r: int| 0 <= r < rows.len() ==> (#[trigger] rows[r]).len() <= headers.len(),
    ensures
        visible_len_spec(header_line(headers, table_widths(headers, rows))) == visible_len_spec(
            border_line(table_widths(headers, rows)),
        ),
{
    let ws = table_widths(headers, rows);
    if headers.len() == 0 {
        lemma_widths_cover_headers_len(headers, rows);
    } else {
        lemma_widths_cover_header(headers, rows, 0);
    }
    assert forall|j: int| 0 <= j < headers.len() implies codes_closed(#[trigger] headers[j])
        && visible_len_spec(headers[j]) <= ws[j] by {
        lemma_widths_cover_header(headers, rows, j);
        lemma_plain(headers[j], 0);
        lemma_utf8_len(headers[j]);
    }
    lemma_cells(headers, ws, headers.len() as int);
    assert(ws.subrange(0, headers.len() as int) =~= ws);
    lemma_plain(seq!['|'], 0);
    lemma_concat_closed(seq!['|'], cells_from(headers, ws, headers.len() as int));
    lemma_border(ws);
}

/// Without headers and with no row longer, a table has no columns.
proof fn lemma_widths_cover_headers_len(h: Seq<Seq<char>>, rows: Seq<Seq<Seq<char>>>)
    requires
        forall|r: int| 0 <= r < rows.len() ==> (#[trigger] rows[r]).len() <= h.len(),
    ensures
        table_widths(h, rows).len() == h.len(),
    decreases rows.len(),
{
    if rows.len() > 0 {
        assert forall|r: int| 0 <= r < rows.drop_last().len() implies (#[trigger] rows.drop_last()[r]).len()
            <= h.len() by {
            assert(rows.drop_last()[r] == rows[r]);
        }
        lemma_widths_cover_headers_len(h, rows.drop_last());
        assert(rows[rows.len() - 1].len() <= h.len());
    }
}

/// The line of an empty table shows as many characters as its border,
/// wherever the columns leave room for "(no entries)".
pub proof fn law_empty_line_aligns(ws: Seq<nat>)
    requires
        widths_total(ws) >= 13,
    ensures
        visible_len_spec(empty_line(ws)) == visible_len_spec(border_line(ws)),
{
    reveal_strlit("(no entries)");
    let total = widths_total(ws) - 1;
    let pad = total - 12;
    let left = pad / 2;
    let right = pad - left;
    let a = repeat(' ', left as nat);
    let m = "(no entries)"@;
    let b = repeat(' ', right as nat);
    let line = seq!['|'] + a + m + b + seq!['|'];
    assert(line == empty_line(ws));
    assert forall|i: int| 0 <= i < line.len() implies line[i] != '\x1b' by {
        if 1 <= i < 1 + a.len() {
            assert(line[i] == a[i - 1]);
        } else if 1 + a.len() <= i < 1 + a.len() + m.len() {
            assert(line[i] == m[i - 1 - a.len()]);
        } else if 1 + a.len() + m.len() <= i < line.len() - 1 {
            assert(line[i] == b[i - 1 - a.len() - m.len()]);
        }
    }
    lemma_plain(line, 0);
    lemma_border(ws);
}

/// The decimal text of a number holds no 'm' and no escape character.
proof fn lemma_dec_chars(n: nat)
    ensures
        forall|i: int| 0 <= i < dec(n).len() ==> #[trigger] dec(n)[i] != 'm' && dec(n)[i] != '\x1b',
    decreases n,
{
    if n >= 10 {
        lemma_dec_chars(n / 10);
        let d = dec(n / 10);
        assert forall|i: int| 0 <= i < dec(n).len() implies #[trigger] dec(n)[i] != 'm' && dec(n)[i] != '\x1b' by {
            if i < d.len() {
                assert(dec(n)[i] == d[i]);
            }
        }
    }
}

/// A code that runs to the last character, an 'm', ends there.
proof fn lemma_escape_end_last(s: Seq<char>, j: int)
    requires
        0 <= j < s.len(),
        s.last() == 'm',
        forall|k: int| j <= k < s.len() - 1 ==> s[k] != 'm',
    ensures
        escape_end(s, j) == s.len(),
    decreases s.len() - j,
{
    if j < s.len() - 1 {
        lemma_escape_end_last(s, j + 1);
    }
}

/// A text that is one colour code shows nothing and closes its code.
proof fn lemma_code(s: Seq<char>)
    requires
        s.len() >= 3,
        s[0] == '\x1b',
        s[1] == '[',
        s.last() == 'm',
        forall|k: int| 2 <= k < s.len() - 1 ==> s[k] != 'm',
    ensures
        codes_closed(s),
        visible_len_spec(s) == 0,
{
    lemma_escape_end_last(s, 2);
    assert(escape_end(s, 2) == s.len());
    assert(visible_from(s, s.len() as int) == 0);
    assert(codes_closed_from(s, s.len() as int));
    assert(visible_from(s, 0) == visible_from(s, escape_end(s, 2)));
    assert(s[escape_end(s, 2) - 1] == 'm');
}

/// The escape codes that set and restore a colour are closed and show
/// nothing.
proof fn lemma_color_codes(c: Rgb)
    ensures
        codes_closed(fg_escape(c)),
        visible_len_spec(fg_escape(c)) == 0,
        codes_closed(fg_reset()),
        visible_len_spec(fg_reset()) == 0,
{
    reveal_strlit("\x1b[38;2;");
    reveal_strlit(";");
    reveal_strlit("m");
    reveal_strlit("\x1b[39m");
    lemma_dec_chars(c.0 as nat);
    lemma_dec_chars(c.1 as nat);
    lemma_dec_chars(c.2 as nat);
    let a = "\x1b[38;2;"@;
    let r = dec(c.0 as nat);
    let g = dec(c.1 as nat);
    let b = dec(c.2 as nat);
    let s = a + r + ";"@ + g + ";"@ + b + "m"@;
    assert(s == fg_escape(c));
    assert forall|k: int| 2 <= k < s.len() - 1 implies s[k] != 'm' by {
        let o1 = a.len() as int;
        let o2 = o1 + r.len();
        let o3 = o2 + 1;
        let o4 = o3 + g.len();
        let o5 = o4 + 1;
        if k < o1 {
        } else if k < o2 {
            assert(s[k] == r[k - o1]);
        } else if k < o3 {
        } else if k < o4 {
            assert(s[k] == g[k - o3]);
        } else if k < o5 {
        } else {
            assert(s[k] == b[k - o5]);
        }
    }
    lemma_code(s);
    lemma_code(fg_reset());
}

/// A plain text in a colour shows its characters and closes its codes.
proof fn lemma_colored(t: Seq<char>, c: Rgb)
    requires
        plain(t),
    ensures
        codes_closed(colored(t, c)),
        visible_len_spec(colored(t, c)) == t.len(),
{
    lemma_color_codes(c);
    lemma_plain(t, 0);
    lemma_concat_closed(fg_escape(c), t);
    lemma_concat_closed(fg_escape(c) + t, fg_reset());
}

proof fn lemma_gradient(name: Seq<char>, cs: Seq<Rgb>, k: int)
    requires
        plain(name),
        0 <= k <= name.len(),
    ensures
        codes_closed(gradient(name, cs, k)),
        visible_len_spec(gradient(name, cs, k)) == k,
    decreases k,
{
    if k <= 0 {
        lemma_plain(seq![], 0);
    } else {
        lemma_gradient(name, cs, k - 1);
        let one = seq![name[k - 1]];
        let c = cs[crate::display::gradient_index(k - 1, name.len() as int, cs.len() as int)];
        lemma_colored(one, c);
        lemma_concat_closed(gradient(name, cs, k - 1), colored(one, c));
    }
}

/// A name painted with any colours shows as many characters as the name,
/// where the name holds no escape character, and leaves no code open: the
/// listings measure painted names by their names.
pub proof fn law_painted_width(name: Seq<char>, cs: Seq<Rgb>)
    requires
        plain(name),
    ensures
        codes_closed(painted(name, cs)),
        visible_len_spec(painted(name, cs)) == name.len(),
{
    if cs.len() == 0 {
        lemma_plain(name, 0);
    } else if cs.len() == 1 {
        lemma_colored(name, cs[0]);
    } else {
        lemma_gradient(name, cs, name.len() as int);
    }
}

// ---------------------------------------------------------------- open codes at the end

/// Whether every colour code at or after `i` ends within the text (a lone
/// escape character at the end starts none).
pub open spec fn codes_end_from(s: Seq<char>, i: int) -> bool
    decreases s.len() - i,
{
    if i < 0 || i >= s.len() {
        true
    } else if s[i] == '\x1b' && i + 1 < s.len() && s[i + 1] == '[' {
        let e = escape_end(s, i + 2);
        proof {
            lemma_escape_end(s, i + 2);
        }
        e - 1 >= i + 2 && s[e - 1] == 'm' && codes_end_from(s, e)
    } else {
        codes_end_from(s, i + 1)
    }
}

/// A text whose codes end within it adds its visible width to a text that
/// does not start with '['.
proof fn lemma_visible_concat_end(a: Seq<char>, b: Seq<char>, i: int)
    requires
        0 <= i <= a.len(),
        codes_end_from(a, i),
        b.len() == 0 || b[0] != '[' || a.len() == 0 || a.last() != '\x1b',
    ensures
        visible_from(a + b, i) == visible_from(a, i) + visible_from(b, 0),
    decreases a.len() - i,
{
    let s = a + b;
    if i == a.len() {
        lemma_visible_shift(a, b, 0);
    } else {
        assert(s[i] == a[i]);
        if i + 1 < a.len() {
            assert(s[i + 1] == a[i + 1]);
        }
        if a[i] == '\x1b' && i + 1 < a.len() && a[i + 1] == '[' {
            lemma_escape_end(a, i + 2);
            lemma_escape_end_prefix(a, b, i + 2);
            lemma_visible_concat_end(a, b, escape_end(a, i + 2));
        } else {
            if i + 1 == a.len() && b.len() > 0 {
                assert(s[i + 1] == b[0]);
            }
            lemma_visible_concat_end(a, b, i + 1);
        }
    }
}

/// Two texts one after the other show the sum of what each shows, where
/// every colour code of the first ends within it and the first does not end
/// in an escape character (which a '[' of the second would turn into a code).
pub proof fn law_visible_concat(a: Seq<char>, b: Seq<char>)
    requires
        codes_end_from(a, 0),
        a.len() == 0 || a.last() != '\x1b',
    ensures
        visible_len_spec(a + b) == visible_len_spec(a) + visible_len_spec(b),
{
    lemma_visible_concat_end(a, b, 0);
}

proof fn lemma_visible_bound(s: Seq<char>, i: int)
    requires
        0 <= i <= s.len(),
    ensures
        visible_from(s, i) <= s.len() - i,
    decreases s.len() - i,
{
    if i < s.len() {
        if s[i] == '\x1b' && i + 1 < s.len() && s[i + 1] == '[' {
            lemma_escape_end(s, i + 2);
            lemma_visible_bound(s, escape_end(s, i + 2));
        } else {
            lemma_visible_bound(s, i + 1);
        }
    }
}

/// A text shows at most as many characters as it has, and all of them where
/// it holds no escape character.
pub proof fn law_visible_at_most_length(s: Seq<char>)
    ensures
        visible_len_spec(s) <= s.len(),
        (forall|i: int| 0 <= i < s.len() ==> s[i] != '\x1b') ==> visible_len_spec(s) == s.len(),
{
    lemma_visible_bound(s, 0);
    if forall|i: int| 0 <= i < s.len() ==> s[i] != '\x1b' {
        lemma_plain(s, 0);
    }
}

/// A cell padded to a width shows the larger of its width and that one,
/// wherever padding is needed only for cells whose colour codes end within
/// them (an open code would hide the padding).
pub proof fn law_pad_width(c: Seq<char>, w: nat)
    requires
        visible_len_spec(c) >= w || codes_end_from(c, 0),
    ensures
        visible_len_spec(pad_spec(c, w)) == if visible_len_spec(c) >= w {
            visible_len_spec(c)
        } else {
            w
        },
{
    if visible_len_spec(c) < w {
        let sp = Seq::new((w - visible_len_spec(c)) as nat, |i: int| ' ');
        lemma_plain(sp, 0);
        lemma_visible_concat_end(c, sp, 0);
    }
}

// ---------------------------------------------------------------- what a terminal shows

/// The characters from position `i` on that a terminal shows, colour codes
/// left out.
pub open spec fn stripped_from(s: Seq<char>, i: int) -> Seq<char>
    decreases s.len() - i,
{
    if i < 0 || i >= s.len() {
        seq![]
    } else if s[i] == '\x1b' && i + 1 < s.len() && s[i + 1] == '[' {
        proof {
            lemma_escape_end(s, i + 2);
        }
        stripped_from(s, escape_end(s, i + 2))
    } else {
        seq![s[i]] + stripped_from(s, i + 1)
    }
}

/// The characters of a text that a terminal shows, colour codes left out.
pub open spec fn stripped(s: Seq<char>) -> Seq<char> {
    stripped_from(s, 0)
}

proof fn lemma_stripped_shift(a: Seq<char>, b: Seq<char>, k: int)
    requires
        0 <= k,
    ensures
        stripped_from(a + b, a.len() + k) == stripped_from(b, k),
    decreases b.len() - k,
{
    let s = a + b;
    if k < b.len() {
        assert(s[a.len() + k] == b[k]);
        if k + 1 < b.len() {
            assert(s[a.len() + k + 1] == b[k + 1]);
        }
        if b[k] == '\x1b' && k + 1 < b.len() && b[k + 1] == '[' {
            lemma_escape_end_shift(a, b, k + 2);
            lemma_escape_end(b, k + 2);
            lemma_stripped_shift(a, b, escape_end(b, k + 2));
        } else {
            lemma_stripped_shift(a, b, k + 1);
        }
    }
}

proof fn lemma_stripped_concat(a: Seq<char>, b: Seq<char>, i: int)
    requires
        0 <= i <= a.len(),
        codes_closed_from(a, i),
    ensures
        stripped_from(a + b, i) == stripped_from(a, i) + stripped_from(b, 0),
    decreases a.len() - i,
{
    let s = a + b;
    if i == a.len() {
        lemma_stripped_shift(a, b, 0);
        assert(stripped_from(a, i) =~= Seq::<char>::empty());
        assert(stripped_from(b, 0) =~= Seq::<char>::empty() + stripped_from(b, 0));
    } else {
        assert(s[i] == a[i]);
        if i + 1 < a.len() {
            assert(s[i + 1] == a[i + 1]);
        }
        if a[i] == '\x1b' && i + 1 < a.len() && a[i + 1] == '[' {
            lemma_escape_end(a, i + 2);
            lemma_escape_end_prefix(a, b, i + 2);
            lemma_stripped_concat(a, b, escape_end(a, i + 2));
        } else {
            lemma_stripped_concat(a, b, i + 1);
            assert(seq![a[i]] + (stripped_from(a, i + 1) + stripped_from(b, 0)) =~= (seq![a[i]] + stripped_from(
                a,
                i + 1,
            )) + stripped_from(b, 0));
        }
    }
}

proof fn lemma_stripped_plain(s: Seq<char>, i: int)
    requires
        plain(s),
        0 <= i <= s.len(),
    ensures
        stripped_from(s, i) == s.subrange(i, s.len() as int),
    decreases s.len() - i,
{
    if i < s.len() {
        lemma_stripped_plain(s, i + 1);
        assert(s.subrange(i, s.len() as int) =~= seq![s[i]] + s.subrange(i + 1, s.len() as int));
    } else {
        assert(s.subrange(i, s.len() as int) =~= Seq::<char>::empty());
    }
}

proof fn lemma_stripped_colored(t: Seq<char>, c: Rgb)
    requires
        plain(t),
    ensures
        stripped(colored(t, c)) == t,
{
    lemma_color_codes(c);
    lemma_plain(t, 0);
    lemma_concat_closed(fg_escape(c), t);
    lemma_stripped_concat(fg_escape(c), t, 0);
    lemma_stripped_concat(fg_escape(c) + t, fg_reset(), 0);
    lemma_stripped_code(fg_escape(c));
    lemma_stripped_code(fg_reset());
    lemma_stripped_plain(t, 0);
    assert(t.subrange(0, t.len() as int) =~= t);
    assert(Seq::<char>::empty() + t + Seq::<char>::empty() =~= t);
}

/// A text that shows nothing leaves nothing when its codes are left out.
proof fn lemma_stripped_code(s: Seq<char>)
    requires
        visible_len_spec(s) == 0,
    ensures
        stripped(s) == Seq::<char>::empty(),
{
    lemma_stripped_visible(s, 0);
}

/// What shows from a position on is as long as its visible width.
proof fn lemma_stripped_visible(s: Seq<char>, i: int)
    requires
        0 <= i,
    ensures
        stripped_from(s, i).len() == visible_from(s, i),
    decreases s.len() - i,
{
    if 0 <= i < s.len() {
        if s[i] == '\x1b' && i + 1 < s.len() && s[i + 1] == '[' {
            lemma_escape_end(s, i + 2);
            lemma_stripped_visible(s, escape_end(s, i + 2));
        } else {
            lemma_stripped_visible(s, i + 1);
        }
    }
}

proof fn lemma_stripped_gradient(name: Seq<char>, cs: Seq<Rgb>, k: int)
    requires
        plain(name),
        0 <= k <= name.len(),
    ensures
        stripped(gradient(name, cs, k)) == name.subrange(0, k),
    decreases k,
{
    if k <= 0 {
        assert(name.subrange(0, 0) =~= Seq::<char>::empty());
    } else {
        lemma_stripped_gradient(name, cs, k - 1);
        lemma_gradient(name, cs, k - 1);
        let one = seq![name[k - 1]];
        let c = cs[crate::display::gradient_index(k - 1, name.len() as int, cs.len() as int)];
        lemma_stripped_colored(one, c);
        lemma_stripped_concat(gradient(name, cs, k - 1), colored(one, c), 0);
        assert(name.subrange(0, k) =~= name.subrange(0, k - 1) + one);
    }
}

/// Leaving out the colour codes of a painted name gives the name back,
/// where the name holds no escape character.
pub proof fn law_painted_strips_to_name(name: Seq<char>, cs: Seq<Rgb>)
    requires
        plain(name),
    ensures
        stripped(painted(name, cs)) == name,
{
    if cs.len() == 0 {
        lemma_stripped_plain(name, 0);
        assert(name.subrange(0, name.len() as int) =~= name);
    } else if cs.len() == 1 {
        lemma_stripped_colored(name, cs[0]);
    } else {
        lemma_stripped_gradient(name, cs, name.len() as int);
        assert(name.subrange(0, name.len() as int) =~= name);
    }
}

/// In a gradient of `len` colours over `n` characters the first character
/// takes the first colour, every character takes one of the colours, and
/// the colour never goes back.
pub proof fn law_gradient_order(n: int, len: int, i: int, j: int)
    requires
        n >= 1,
        len >= 1,
        0 <= i <= j < n,
    ensures
        crate::display::gradient_index(0, n, len) == 0,
        0 <= crate::display::gradient_index(i, n, len) < len,
        crate::display::gradient_index(i, n, len) <= crate::display::gradient_index(j, n, len),
{
    assert(0 * len / n == 0) by (nonlinear_arith)
        requires
            n >= 1,
    ;
    vstd::arithmetic::mul::lemma_mul_inequality(i, j, len);
    vstd::arithmetic::div_mod::lemma_div_is_ordered(i * len, j * len, n);
    assert(i * len >= 0) by (nonlinear_arith)
        requires
            i >= 0,
            len >= 1,
    ;
    assert((i * len) / n >= 0) by (nonlinear_arith)
        requires
            i * len >= 0,
            n >= 1,
    ;
}

} // verus!
