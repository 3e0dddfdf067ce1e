//! What the timeline, tag and project listings show: durations, coloured
//! names, cell padding that ignores colour codes, and the table around them.

use vstd::prelude::*;
use vstd::arithmetic::div_mod::lemma_fundamental_div_mod_converse;
use crate::numbers::{dec, push_decimal};
use crate::text::trim;
use crate::types::{color_json_named, Colorscheme, Mode};
use crate::text::{chars_of, string_of};
use owo_colors::OwoColorize;

verus! {

broadcast use vstd::string::group_string_axioms;

/// Appends the characters of a text to `out`.
pub fn push_str(out: &mut Vec<char>, s: &str)
    ensures
        final(out)@ == old(out)@ + s@,
{
    let w = crate::text::chars_of(s);
    let ghost start = out@;
    let mut i: usize = 0;
    while i < w.len()
        invariant
            i <= w@.len(),
            out@ == start + w@.subrange(0, i as int),
        decreases w@.len() - i,
    {
        out.push(w[i]);
        i = i + 1;
        proof {
            assert(w@.subrange(0, i as int) =~= w@.subrange(0, i - 1).push(w@[i - 1]));
        }
    }
    proof {
        assert(w@.subrange(0, w@.len() as int) =~= w@);
    }
}

// ---------------------------------------------------------------- durations

/// Whole days, hours, minutes and seconds of a number of seconds.
pub open spec fn duration_parts(total: int) -> (int, int, int, int) {
    (total / 86400, (total % 86400) / 3600, (total % 3600) / 60, total % 60)
}

/// The text of the time between two instants given in milliseconds: "-" if
/// the end is before the start, else the whole seconds split into days,
/// hours, minutes and seconds, leaving out the leading parts that are zero.
pub open spec fn duration_text(start_ms: int, end_ms: int) -> Seq<char> {
    let diff = end_ms - start_ms;
    if diff < 0 {
        "-"@
    } else {
        let (d, h, m, s) = duration_parts(diff / 1000);
        if d > 0 {
            dec(d as nat) + "d "@ + dec(h as nat) + "h "@ + dec(m as nat) + "m "@ + dec(s as nat) + "s"@
        } else if h > 0 {
            dec(h as nat) + "h "@ + dec(m as nat) + "m "@ + dec(s as nat) + "s"@
        } else if m > 0 {
            dec(m as nat) + "m "@ + dec(s as nat) + "s"@
        } else {
            dec(s as nat) + "s"@
        }
    }
}

/// The text of the time between two instants given in milliseconds.
pub fn format_duration(start_ms: i64, end_ms: i64) -> (r: String)
    requires
        i64::MIN <= end_ms - start_ms <= i64::MAX,
    ensures
        r@ == duration_text(start_ms as int, end_ms as int),
{
    let diff = end_ms - start_ms;
    let mut out: Vec<char> = Vec::new();
    if diff < 0 {
        push_str(&mut out, "-");
        proof {
            assert(out@ =~= "-"@);
        }
        return string_of(&out);
    }
    let total = (diff / 1000) as u64;
    let days = total / 86400;
    let hours = (total % 86400) / 3600;
    let minutes = (total % 3600) / 60;
    let seconds = total % 60;
    let ghost parts = duration_parts(diff / 1000);
    proof {
        assert(parts == (days as int, hours as int, minutes as int, seconds as int));
    }
    if days > 0 {
        push_decimal(&mut out, days);
        push_str(&mut out, "d ");
        push_decimal(&mut out, hours);
        push_str(&mut out, "h ");
        push_decimal(&mut out, minutes);
        push_str(&mut out, "m ");
        push_decimal(&mut out, seconds);
        push_str(&mut out, "s");
    } else if hours > 0 {
        push_decimal(&mut out, hours);
        push_str(&mut out, "h ");
        push_decimal(&mut out, minutes);
        push_str(&mut out, "m ");
        push_decimal(&mut out, seconds);
        push_str(&mut out, "s");
    } else if minutes > 0 {
        push_decimal(&mut out, minutes);
        push_str(&mut out, "m ");
        push_decimal(&mut out, seconds);
        push_str(&mut out, "s");
    } else {
        push_decimal(&mut out, seconds);
        push_str(&mut out, "s");
    }
    proof {
        assert(out@ =~= duration_text(start_ms as int, end_ms as int));
    }
    string_of(&out)
}

/// The parts of a duration add up to its whole seconds, each part below its
/// unit's limit.
pub proof fn law_duration_parts(total: int)
    requires
        total >= 0,
    ensures
        ({
            let (d, h, m, s) = duration_parts(total);
            &&& d * 86400 + h * 3600 + m * 60 + s == total
            &&& 0 <= h < 24
            &&& 0 <= m < 60
            &&& 0 <= s < 60
        }),
{
    let (d, h, m, s) = duration_parts(total);
    let r = total % 86400;
    assert(total == d * 86400 + r) by (nonlinear_arith)
        requires
            d == total / 86400,
            r == total % 86400,
            total >= 0,
    ;
    assert(r == h * 3600 + r % 3600 && 0 <= h < 24) by (nonlinear_arith)
        requires
            h == r / 3600,
            0 <= r < 86400,
    ;
    assert(r % 3600 == total % 3600) by (nonlinear_arith)
        requires
            total == d * 86400 + r,
            d >= 0,
            0 <= r < 86400,
    ;
    let q = total % 3600;
    assert(q == m * 60 + q % 60 && 0 <= m < 60) by (nonlinear_arith)
        requires
            m == q / 60,
            0 <= q < 3600,
    ;
    assert(q % 60 == total % 60) by (nonlinear_arith)
        requires
            q == total % 3600,
            total >= 0,
    ;
}

/// A duration is written part by part: for whole seconds
/// `d * 86400 + h * 3600 + m * 60 + s` with `h < 24` and `m, s < 60`, the
/// text names `d` days, `h` hours, `m` minutes and `s` seconds in that order,
/// each number before its unit, the leading zero parts left out; an end
/// before the start is written "-".
pub proof fn law_duration_text(start_ms: int, end_ms: int, d: nat, h: nat, m: nat, s: nat)
    requires
        h < 24,
        m < 60,
        s < 60,
        end_ms - start_ms >= 0 ==> (end_ms - start_ms) / 1000 == d * 86400 + h * 3600 + m * 60 + s,
    ensures
        end_ms < start_ms ==> duration_text(start_ms, end_ms) == "-"@,
        end_ms >= start_ms && d > 0 ==> duration_text(start_ms, end_ms) == dec(d) + "d "@ + dec(h) + "h "@
            + dec(m) + "m "@ + dec(s) + "s"@,
        end_ms >= start_ms && d == 0 && h > 0 ==> duration_text(start_ms, end_ms) == dec(h) + "h "@ + dec(m)
            + "m "@ + dec(s) + "s"@,
        end_ms >= start_ms && d == 0 && h == 0 && m > 0 ==> duration_text(start_ms, end_ms) == dec(m) + "m "@
            + dec(s) + "s"@,
        end_ms >= start_ms && d == 0 && h == 0 && m == 0 ==> duration_text(start_ms, end_ms) == dec(s) + "s"@,
{
    if end_ms >= start_ms {
        let total = (end_ms - start_ms) / 1000;
        let r1: int = (h * 3600 + m * 60 + s) as int;
        let r2: int = (m * 60 + s) as int;
        assert(0 <= r1 < 86400 && total == d * 86400 + r1) by (nonlinear_arith)
            requires
                h < 24,
                m < 60,
                s < 60,
                r1 == h * 3600 + m * 60 + s,
                total == d * 86400 + h * 3600 + m * 60 + s,
        ;
        lemma_fundamental_div_mod_converse(total, 86400, d as int, r1);
        lemma_fundamental_div_mod_converse(r1, 3600, h as int, r2);
        assert(total == (d * 24 + h) * 3600 + r2) by (nonlinear_arith)
            requires
                total == d * 86400 + r1,
                r1 == h * 3600 + r2,
        ;
        lemma_fundamental_div_mod_converse(total, 3600, (d * 24 + h) as int, r2);
        lemma_fundamental_div_mod_converse(r2, 60, m as int, s as int);
        assert(total == (d * 1440 + h * 60 + m) * 60 + s) by (nonlinear_arith)
            requires
                total == (d * 24 + h) * 3600 + r2,
                r2 == m * 60 + s,
        ;
        lemma_fundamental_div_mod_converse(total, 60, (d * 1440 + h * 60 + m) as int, s as int);
        assert(duration_parts(total) == (d as int, h as int, m as int, s as int));
    }
}

// ---------------------------------------------------------------- visible width

/// Where an escape sequence whose parameters start at `i` ends: just after
/// the first 'm' from `i` on, or at the end of the text.
pub open spec fn escape_end(s: Seq<char>, i: int) -> int
    decreases s.len() - i,
{
    if i >= s.len() {
        s.len() as int
    } else if s[i] == 'm' {
        i + 1
    } else {
        escape_end(s, i + 1)
    }
}

pub proof fn lemma_escape_end(s: Seq<char>, i: int)
    requires
        0 <= i,
    ensures
        i <= s.len() ==> i <= escape_end(s, i) <= s.len(),
        i > s.len() ==> escape_end(s, i) == s.len(),
    decreases s.len() - i,
{
    if i < s.len() && s[i] != 'm' {
        lemma_escape_end(s, i + 1);
    }
}

/// The number of characters from position `i` on that a terminal shows:
/// an escape character followed by '[' starts a colour code that runs up to
/// and including the next 'm' and shows nothing.
pub open spec fn visible_from(s: Seq<char>, i: int) -> nat
    decreases s.len() - i,
{
    if i < 0 || i >= s.len() {
        0
    } else if s[i] == '\x1b' && i + 1 < s.len() && s[i + 1] == '[' {
        proof {
            lemma_escape_end(s, i + 2);
        }
        visible_from(s, escape_end(s, i + 2))
    } else {
        1 + visible_from(s, i + 1)
    }
}

/// The number of characters of a text that a terminal shows.
pub open spec fn visible_len_spec(s: Seq<char>) -> nat {
    visible_from(s, 0)
}

/// The number of characters of a text that a terminal shows, colour codes
/// left out.
pub fn visible_len(s: &str) -> (n: usize)
    ensures
        n == visible_len_spec(s@),
{
    let v = chars_of(s);
    let len = v.len();
    let mut count: usize = 0;
    let mut i: usize = 0;
    while i < len
        invariant
            len == v@.len(),
            v@ == s@,
            i <= len,
            count <= i,
            count + visible_from(v@, i as int) == visible_from(v@, 0),
        decreases len - i,
    {
        if v[i] == '\x1b' && i + 1 < len && v[i + 1] == '[' {
            let mut j = i + 2;
            proof {
                lemma_escape_end(v@, j as int);
            }
            while j < len && v[j] != 'm'
                invariant
                    len == v@.len(),
                    i + 2 <= j <= len,
                    escape_end(v@, j as int) == escape_end(v@, i + 2),
                decreases len - j,
            {
                j = j + 1;
            }
            if j < len {
                j = j + 1;
            }
            i = j;
        } else {
            count = count + 1;
            i = i + 1;
        }
    }
    count
}

/// A text followed by spaces up to the given visible width.
pub open spec fn pad_spec(s: Seq<char>, width: nat) -> Seq<char> {
    if visible_len_spec(s) >= width {
        s
    } else {
        s + Seq::new((width - visible_len_spec(s)) as nat, |i: int| ' ')
    }
}

/// A cell text followed by spaces up to the given visible width.
pub fn pad_cell(s: &str, width: usize) -> (r: String)
    ensures
        r@ == pad_spec(s@, width as nat),
{
    let vlen = visible_len(s);
    let mut out = chars_of(s);
    if vlen < width {
        let ghost start = out@;
        let k = width - vlen;
        let mut i: usize = 0;
        while i < k
            invariant
                i <= k,
                out@ == start + Seq::new(i as nat, |j: int| ' '),
            decreases k - i,
        {
            out.push(' ');
            i = i + 1;
            proof {
                assert(out@ =~= start + Seq::new(i as nat, |j: int| ' '));
            }
        }
    }
    string_of(&out)
}

// ---------------------------------------------------------------- colours

/// A colour as red, green and blue intensities.
#[derive(Clone, Copy, PartialEq, Eq, Structural, Debug)]
pub struct Rgb(pub u8, pub u8, pub u8);

/// The value of a hexadecimal digit character, if it is one.
pub open spec fn hex_value(c: char) -> Option<nat> {
    if '0' <= c && c <= '9' {
        Some((c as nat - '0' as nat) as nat)
    } else if 'a' <= c && c <= 'f' {
        Some((c as nat - 'a' as nat + 10) as nat)
    } else if 'A' <= c && c <= 'F' {
        Some((c as nat - 'A' as nat + 10) as nat)
    } else {
        None
    }
}

/// The byte that two characters denote as std's `u8::from_str_radix` reads
/// them in base 16: two hex digits, or '+' and one hex digit.
pub open spec fn hex_pair(a: char, b: char) -> Option<u8> {
    match (hex_value(a), hex_value(b)) {
        (Some(x), Some(y)) => Some((x * 16 + y) as u8),
        _ => if a == '+' {
            match hex_value(b) {
                Some(y) => Some(y as u8),
                None => None,
            }
        } else {
            None
        },
    }
}

/// The number of '#' at the start of a text.
pub open spec fn leading_hashes(s: Seq<char>) -> nat
    decreases s.len(),
{
    if s.len() > 0 && s[0] == '#' {
        1 + leading_hashes(s.drop_first())
    } else {
        0
    }
}

/// The text without its leading '#'s.
pub open spec fn hex_digits(s: Seq<char>) -> Seq<char> {
    s.subrange(leading_hashes(s) as int, s.len() as int)
}

/// Whether a colour code can be read: after the leading '#'s, three pairs
/// of characters that each denote a byte.
pub open spec fn is_hex_color(s: Seq<char>) -> bool {
    let h = hex_digits(s);
    &&& h.len() >= 6
    &&& hex_pair(h[0], h[1]) is Some
    &&& hex_pair(h[2], h[3]) is Some
    &&& hex_pair(h[4], h[5]) is Some
}

/// The colour that a readable colour code denotes.
pub open spec fn rgb_of_hex(s: Seq<char>) -> Rgb {
    let h = hex_digits(s);
    Rgb(hex_pair(h[0], h[1])->0, hex_pair(h[2], h[3])->0, hex_pair(h[4], h[5])->0)
}

fn hex_value_of(c: char) -> (r: Option<u8>)
    ensures
        match hex_value(c) {
            Some(v) => r == Some(v as u8),
            None => r.is_none(),
        },
{
    if '0' <= c && c <= '9' {
        Some((c as u32 - '0' as u32) as u8)
    } else if 'a' <= c && c <= 'f' {
        Some((c as u32 - 'a' as u32 + 10) as u8)
    } else if 'A' <= c && c <= 'F' {
        Some((c as u32 - 'A' as u32 + 10) as u8)
    } else {
        None
    }
}

fn hex_pair_of(a: char, b: char) -> (r: Option<u8>)
    ensures
        r == hex_pair(a, b),
{
    match (hex_value_of(a), hex_value_of(b)) {
        (Some(x), Some(y)) => Some(x * 16 + y),
        (_, Some(y)) => if a == '+' {
            Some(y)
        } else {
            None
        },
        _ => None,
    }
}

proof fn lemma_leading_hashes(s: Seq<char>, i: int)
    requires
        0 <= i <= s.len(),
        forall|j: int| 0 <= j < i ==> #[trigger] s[j] == '#',
        i == s.len() || s[i] != '#',
    ensures
        leading_hashes(s) == i,
    decreases i,
{
    if i > 0 {
        lemma_leading_hashes(s.drop_first(), i - 1);
    }
}

/// The colour of a colour code such as "#cf8282".
pub fn hex_to_rgb(hex: &str) -> (c: Rgb)
    requires
        is_hex_color(hex@),
    ensures
        c == rgb_of_hex(hex@),
{
    let v = chars_of(hex);
    let mut i: usize = 0;
    while i < v.len() && v[i] == '#'
        invariant
            i <= v@.len(),
            forall|j: int| 0 <= j < i ==> #[trigger] v@[j] == '#',
        decreases v@.len() - i,
    {
        i = i + 1;
    }
    proof {
        lemma_leading_hashes(v@, i as int);
    }
    let ghost h = hex_digits(hex@);
    proof {
        assert(h[0] == v@[i as int] && h[1] == v@[i + 1] && h[2] == v@[i + 2]);
        assert(h[3] == v@[i + 3] && h[4] == v@[i + 4] && h[5] == v@[i + 5]);
    }
    let r = hex_pair_of(v[i], v[i + 1]);
    let g = hex_pair_of(v[i + 2], v[i + 3]);
    let b = hex_pair_of(v[i + 4], v[i + 5]);
    match (r, g, b) {
        (Some(r), Some(g), Some(b)) => Rgb(r, g, b),
        _ => Rgb(0, 0, 0),
    }
}

/// The escape sequence that sets the foreground to a colour.
pub open spec fn fg_escape(c: Rgb) -> Seq<char> {
    "\x1b[38;2;"@ + dec(c.0 as nat) + ";"@ + dec(c.1 as nat) + ";"@ + dec(c.2 as nat) + "m"@
}

/// The escape sequence that restores the default foreground.
pub open spec fn fg_reset() -> Seq<char> {
    "\x1b[39m"@
}

/// A text in a colour.
pub open spec fn colored(text: Seq<char>, c: Rgb) -> Seq<char> {
    fg_escape(c) + text + fg_reset()
}

/// A text in a colour as owo-colors writes it (`OwoColorize::color` with an
/// `Rgb`, displayed). Claimed, as the crate's source shows: the escape
/// "ESC[38;2;R;G;Bm" with the decimal intensities, the text, then "ESC[39m".
#[verifier::external_body]
fn owo_color(text: &str, c: Rgb) -> (s: String)
    ensures
        s@ == colored(text@, c),
{
    format!("{}", text.color(owo_colors::Rgb(c.0, c.1, c.2)))
}

/// A text in a colour.
pub fn colorize(text: &str, c: Rgb) -> (s: String)
    ensures
        s@ == colored(text@, c),
{
    owo_color(text, c)
}

/// Each colour of the palette has a readable colour code.
pub proof fn lemma_palette_hex(c: Colorscheme)
    ensures
        is_hex_color(c.hex_spec()),
{
    let h = c.hex_spec();
    match c {
        Colorscheme::Strawberry => { reveal_strlit("#cf8282"); },
        Colorscheme::Orange => { reveal_strlit("#d4a266"); },
        Colorscheme::Lemon => { reveal_strlit("#e3cd7f"); },
        Colorscheme::Leaf => { reveal_strlit("#9ccc96"); },
        Colorscheme::Mint => { reveal_strlit("#99cfac"); },
        Colorscheme::Sky => { reveal_strlit("#90cdde"); },
        Colorscheme::Blueberry => { reveal_strlit("#9bb0de"); },
        Colorscheme::Grape => { reveal_strlit("#9b98d6"); },
        Colorscheme::Plum => { reveal_strlit("#aa99d1"); },
        Colorscheme::Lavender => { reveal_strlit("#cca3d6"); },
        Colorscheme::Lilac => { reveal_strlit("#dbb4d3"); },
        Colorscheme::Pink => { reveal_strlit("#edb7ca"); },
    }
    assert(h.len() == 7 && h[0] == '#');
    assert(h.drop_first().len() == 6 && (h.len() == 0 || h.drop_first()[0] != '#'));
    assert(leading_hashes(h.drop_first()) == 0);
    assert(leading_hashes(h) == 1);
    let d = hex_digits(h);
    assert(d =~= h.drop_first());
    assert(d[0] == h[1] && d[1] == h[2] && d[2] == h[3] && d[3] == h[4] && d[4] == h[5] && d[5] == h[6]);
}

/// The colour of a palette entry, as the listings show it.
pub open spec fn palette_rgb(c: Colorscheme) -> Rgb {
    rgb_of_hex(c.hex_spec())
}

/// The colour of a seven-character code "#rrggbb": its three pairs of digits.
proof fn lemma_rgb_of_code(h: Seq<char>)
    requires
        h.len() == 7,
        h[0] == '#',
        h[1] != '#',
    ensures
        rgb_of_hex(h) == Rgb(hex_pair(h[1], h[2])->0, hex_pair(h[3], h[4])->0, hex_pair(h[5], h[6])->0),
{
    assert(leading_hashes(h.drop_first()) == 0);
    assert(leading_hashes(h) == 1);
    let d = hex_digits(h);
    assert(d =~= h.drop_first());
}

/// The palette in red, green and blue: the colour each entry is painted in.
pub proof fn law_palette_colors()
    ensures
        palette_rgb(Colorscheme::Strawberry) == Rgb(207, 130, 130),
        palette_rgb(Colorscheme::Orange) == Rgb(212, 162, 102),
        palette_rgb(Colorscheme::Lemon) == Rgb(227, 205, 127),
        palette_rgb(Colorscheme::Leaf) == Rgb(156, 204, 150),
        palette_rgb(Colorscheme::Mint) == Rgb(153, 207, 172),
        palette_rgb(Colorscheme::Sky) == Rgb(144, 205, 222),
        palette_rgb(Colorscheme::Blueberry) == Rgb(155, 176, 222),
        palette_rgb(Colorscheme::Grape) == Rgb(155, 152, 214),
        palette_rgb(Colorscheme::Plum) == Rgb(170, 153, 209),
        palette_rgb(Colorscheme::Lavender) == Rgb(204, 163, 214),
        palette_rgb(Colorscheme::Lilac) == Rgb(219, 180, 211),
        palette_rgb(Colorscheme::Pink) == Rgb(237, 183, 202),
{
    assert(palette_rgb(Colorscheme::Strawberry) == Rgb(207, 130, 130)) by {
        reveal_strlit("#cf8282");
        lemma_rgb_of_code(Colorscheme::Strawberry.hex_spec());
    }
    assert(palette_rgb(Colorscheme::Orange) == Rgb(212, 162, 102)) by {
        reveal_strlit("#d4a266");
        lemma_rgb_of_code(Colorscheme::Orange.hex_spec());
    }
    assert(palette_rgb(Colorscheme::Lemon) == Rgb(227, 205, 127)) by {
        reveal_strlit("#e3cd7f");
        lemma_rgb_of_code(Colorscheme::Lemon.hex_spec());
    }
    assert(palette_rgb(Colorscheme::Leaf) == Rgb(156, 204, 150)) by {
        reveal_strlit("#9ccc96");
        lemma_rgb_of_code(Colorscheme::Leaf.hex_spec());
    }
    assert(palette_rgb(Colorscheme::Mint) == Rgb(153, 207, 172)) by {
        reveal_strlit("#99cfac");
        lemma_rgb_of_code(Colorscheme::Mint.hex_spec());
    }
    assert(palette_rgb(Colorscheme::Sky) == Rgb(144, 205, 222)) by {
        reveal_strlit("#90cdde");
        lemma_rgb_of_code(Colorscheme::Sky.hex_spec());
    }
    assert(palette_rgb(Colorscheme::Blueberry) == Rgb(155, 176, 222)) by {
        reveal_strlit("#9bb0de");
        lemma_rgb_of_code(Colorscheme::Blueberry.hex_spec());
    }
    assert(palette_rgb(Colorscheme::Grape) == Rgb(155, 152, 214)) by {
        reveal_strlit("#9b98d6");
        lemma_rgb_of_code(Colorscheme::Grape.hex_spec());
    }
    assert(palette_rgb(Colorscheme::Plum) == Rgb(170, 153, 209)) by {
        reveal_strlit("#aa99d1");
        lemma_rgb_of_code(Colorscheme::Plum.hex_spec());
    }
    assert(palette_rgb(Colorscheme::Lavender) == Rgb(204, 163, 214)) by {
        reveal_strlit("#cca3d6");
        lemma_rgb_of_code(Colorscheme::Lavender.hex_spec());
    }
    assert(palette_rgb(Colorscheme::Lilac) == Rgb(219, 180, 211)) by {
        reveal_strlit("#dbb4d3");
        lemma_rgb_of_code(Colorscheme::Lilac.hex_spec());
    }
    assert(palette_rgb(Colorscheme::Pink) == Rgb(237, 183, 202)) by {
        reveal_strlit("#edb7ca");
        lemma_rgb_of_code(Colorscheme::Pink.hex_spec());
    }
}

/// One item of a JSON list as serde_json reads it into a `Value`: a string,
/// an object given by its entries (each key with whether its value is
/// null), or anything else.
pub enum JsonItem {
    Text(String),
    Entries(Vec<(String, bool)>),
    Other,
}

/// A JSON list item with its texts taken as character sequences.
pub enum JsonItemV {
    Text(Seq<char>),
    Entries(Seq<(Seq<char>, bool)>),
    Other,
}

impl View for JsonItem {
    type V = JsonItemV;

    open spec fn view(&self) -> JsonItemV {
        match self {
            JsonItem::Text(t) => JsonItemV::Text(t@),
            JsonItem::Entries(es) => JsonItemV::Entries(es@.map_values(|e: (String, bool)| (e.0@, e.1))),
            JsonItem::Other => JsonItemV::Other,
        }
    }
}

/// What serde_json's `from_str::<Vec<Value>>` gives for a text, each item
/// taken as a `JsonItem`, or `None` where the text is not a JSON list.
pub uninterp spec fn json_items(s: Seq<char>) -> Option<Seq<JsonItemV>>;

/// Reads a JSON list with serde_json (`from_str::<Vec<Value>>`) and takes
/// each item as a `JsonItem`. Claimed: the result is the named result of the
/// text. serde_json's `Value` keeps one entry per key of an object.
#[verifier::external_body]
fn serde_json_items(s: &str) -> (r: Option<Vec<JsonItem>>)
    ensures
        match r {
            Some(v) => json_items(s@) == Some(v@.map_values(|x: JsonItem| x@)),
            None => json_items(s@).is_none(),
        },
{
    let values = serde_json::from_str::<Vec<serde_json::Value>>(s).ok()?;
    Some(values.into_iter().map(|v| match v {
        serde_json::Value::String(t) => JsonItem::Text(t),
        serde_json::Value::Object(m) => JsonItem::Entries(m.into_iter().map(|(k, x)| (k, x.is_null())).collect()),
        _ => JsonItem::Other,
    }).collect())
}

/// The palette colour that a JSON list item names, the way serde reads a
/// palette entry: its variant name as a string, or an object whose one key
/// is the variant name and whose value is null. An object that repeats that
/// key reaches here as one entry (serde_json's `Value` keeps one per key), so
/// it counts as naming the colour, where serde itself would refuse it.
pub open spec fn json_item_color(it: JsonItemV) -> Option<Colorscheme> {
    match it {
        JsonItemV::Text(n) => color_json_named(n),
        JsonItemV::Entries(es) => if es.len() == 1 && es[0].1 {
            color_json_named(es[0].0)
        } else {
            None
        },
        JsonItemV::Other => None,
    }
}

fn item_color(it: &JsonItem) -> (r: Option<Colorscheme>)
    ensures
        r == json_item_color(it@),
{
    match it {
        JsonItem::Text(t) => Colorscheme::from_json_name(t.as_str()),
        JsonItem::Entries(es) => {
            if es.len() == 1 && es[0].1 {
                Colorscheme::from_json_name(es[0].0.as_str())
            } else {
                None
            }
        },
        JsonItem::Other => None,
    }
}

/// The colours that a JSON list of palette entries denotes, if every item
/// names one.
pub open spec fn json_colors(items: Seq<JsonItemV>) -> Option<Seq<Rgb>>
    decreases items.len(),
{
    if items.len() == 0 {
        Some(seq![])
    } else {
        match (json_colors(items.drop_last()), json_item_color(items.last())) {
            (Some(rest), Some(c)) => Some(rest.push(palette_rgb(c))),
            _ => None,
        }
    }
}

/// The colours of a stored colour list ("[\"Strawberry\", ...]"); none where
/// the list is absent, empty, null or not a JSON list of palette entries.
pub open spec fn parse_colors_spec(color_json: Option<Seq<char>>) -> Seq<Rgb> {
    match color_json {
        None => seq![],
        Some(raw) => {
            let json = crate::text::trim_spec(raw);
            if json.len() == 0 || json == "null"@ || json == "[]"@ {
                seq![]
            } else {
                match json_items(json) {
                    None => seq![],
                    Some(items) => match json_colors(items) {
                        Some(cs) => cs,
                        None => seq![],
                    },
                }
            }
        },
    }
}

/// The colours of a stored colour list.
pub fn parse_colors(color_json: Option<&str>) -> (r: Vec<Rgb>)
    ensures
        r@ == parse_colors_spec(match color_json {
            Some(s) => Some(s@),
            None => None,
        }),
{
    let raw = match color_json {
        Some(s) => s,
        None => return Vec::new(),
    };
    let json = trim(raw);
    if json.as_str().unicode_len() == 0 || json == "null".to_string() || json == "[]".to_string() {
        return Vec::new();
    }
    let items = match serde_json_items(json.as_str()) {
        Some(v) => v,
        None => return Vec::new(),
    };
    match colors_of_items(&items) {
        Some(cs) => cs,
        None => Vec::new(),
    }
}

/// The colours that the items of a JSON list name, in order, or `None`
/// where an item names no palette entry.
pub fn colors_of_items(items: &Vec<JsonItem>) -> (r: Option<Vec<Rgb>>)
    ensures
        match json_colors(items@.map_values(|x: JsonItem| x@)) {
            Some(cs) => r matches Some(v) && v@ == cs,
            None => r is None,
        },
{
    let ghost nv = items@.map_values(|x: JsonItem| x@);
    let mut out: Vec<Rgb> = Vec::new();
    let mut i: usize = 0;
    while i < items.len()
        invariant
            i <= items@.len(),
            nv == items@.map_values(|x: JsonItem| x@),
            json_colors(nv.subrange(0, i as int)) == Some(out@),
        decreases items@.len() - i,
    {
        proof {
            assert(nv.subrange(0, i + 1).drop_last() =~= nv.subrange(0, i as int));
            assert(nv.subrange(0, i + 1).last() == items@[i as int]@);
        }
        match item_color(&items[i]) {
            Some(c) => {
                proof {
                    lemma_palette_hex(c);
                }
                let rgb = hex_to_rgb(c.hex(&Mode::Light));
                out.push(rgb);
            },
            None => {
                proof {
                    assert(json_colors(nv.subrange(0, i + 1)).is_none());
                    lemma_json_colors_none(nv, i as int + 1);
                }
                return None;
            },
        }
        i = i + 1;
    }
    proof {
        assert(nv.subrange(0, nv.len() as int) =~= nv);
    }
    Some(out)
}

proof fn lemma_json_colors_none(items: Seq<JsonItemV>, k: int)
    requires
        0 <= k <= items.len(),
        json_colors(items.subrange(0, k)).is_none(),
    ensures
        json_colors(items).is_none(),
    decreases items.len() - k,
{
    if k < items.len() {
        assert(items.subrange(0, k + 1).drop_last() =~= items.subrange(0, k));
        lemma_json_colors_none(items, k + 1);
    } else {
        assert(items.subrange(0, k) =~= items);
    }
}

/// The colour of the `i`-th of `n` characters when a name is painted with
/// a gradient of the colours.
pub open spec fn gradient_index(i: int, n: int, len: int) -> int {
    let idx = i * len / n;
    if idx < len - 1 {
        idx
    } else {
        len - 1
    }
}

/// The first `k` characters of a name, each in its gradient colour.
pub open spec fn gradient(name: Seq<char>, cs: Seq<Rgb>, k: int) -> Seq<char>
    decreases k,
{
    if k <= 0 {
        seq![]
    } else {
        gradient(name, cs, k - 1) + colored(seq![name[k - 1]], cs[gradient_index(k - 1, name.len() as int, cs.len() as int)])
    }
}

/// A name painted with its colours: unchanged without colours, in the one
/// colour, or as a gradient that spreads the colours evenly over the
/// characters.
pub open spec fn painted(name: Seq<char>, cs: Seq<Rgb>) -> Seq<char> {
    if cs.len() == 0 {
        name
    } else if cs.len() == 1 {
        colored(name, cs[0])
    } else {
        gradient(name, cs, name.len() as int)
    }
}

/// A name painted with the given colours.
pub fn paint(name: &str, colors: &Vec<Rgb>) -> (r: String)
    ensures
        r@ == painted(name@, colors@),
{
    if colors.len() == 0 {
        let v = chars_of(name);
        return string_of(&v);
    }
    if colors.len() == 1 {
        return colorize(name, colors[0]);
    }
    let chars = chars_of(name);
    let n = chars.len();
    let len = colors.len();
    let mut out: Vec<char> = Vec::new();
    let mut i: usize = 0;
    while i < n
        invariant
            n == chars@.len(),
            chars@ == name@,
            len == colors@.len(),
            len >= 2,
            i <= n,
            out@ == gradient(name@, colors@, i as int),
        decreases n - i,
    {
        proof {
            assert((i as int) * (len as int) <= u128::MAX) by (nonlinear_arith)
                requires
                    0 <= i <= usize::MAX,
                    0 <= len <= usize::MAX,
                    usize::MAX <= u64::MAX,
            ;
        }
        let q = (i as u128) * (len as u128) / (n as u128);
        proof {
            assert(q == (i as int) * (len as int) / (n as int));
            assert(q <= len) by (nonlinear_arith)
                requires
                    q == (i as int) * (len as int) / (n as int),
                    i < n,
                    0 < n,
            ;
        }
        let idx: usize = if q < (len - 1) as u128 {
            q as usize
        } else {
            len - 1
        };
        let one = vec![chars[i]];
        let piece = colorize(string_of(&one).as_str(), colors[idx]);
        let ghost before = out@;
        push_str(&mut out, piece.as_str());
        proof {
            assert(one@ =~= seq![name@[i as int]]);
            assert(out@ =~= gradient(name@, colors@, i + 1));
        }
        i = i + 1;
    }
    string_of(&out)
}

/// A name painted with the colours of its stored colour list.
pub fn format_colored(name: &str, color_json: Option<&str>) -> (r: String)
    ensures
        r@ == painted(name@, parse_colors_spec(match color_json {
            Some(s) => Some(s@),
            None => None,
        })),
{
    let colors = parse_colors(color_json);
    paint(name, &colors)
}

} // verus!
