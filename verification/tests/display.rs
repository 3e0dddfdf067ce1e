use horologium::display::{
    colorize, colors_of_items, format_colored, format_duration, hex_to_rgb, paint, pad_cell, parse_colors, visible_len, Rgb,
};
use horologium::display::JsonItem;
use horologium::table::render_table;
use horologium::types::{Color, Colorscheme, Mode};

#[test]
fn format_duration_days() {
    assert_eq!(format_duration(0, 90_061_000), "1d 1h 1m 1s");
}

#[test]
fn format_duration_hours() {
    assert_eq!(format_duration(1_000, 3_601_000), "1h 0m 0s");
}

#[test]
fn format_duration_minutes() {
    assert_eq!(format_duration(0, 61_999), "1m 1s");
}

#[test]
fn format_duration_seconds() {
    assert_eq!(format_duration(5, 1_004), "0s");
    assert_eq!(format_duration(0, 59_000), "59s");
}

#[test]
fn format_duration_negative() {
    assert_eq!(format_duration(10, 9), "-");
}

#[test]
fn format_duration_parts_add_up() {
    // 2 days, 23 hours, 59 minutes, 59 seconds
    let total: i64 = 2 * 86_400 + 23 * 3_600 + 59 * 60 + 59;
    assert_eq!(format_duration(0, total * 1000), "2d 23h 59m 59s");
}

#[test]
fn visible_len_skips_colour_codes() {
    assert_eq!(visible_len("\x1b[38;2;1;2;3mab\x1b[39m"), 2);
    assert_eq!(visible_len("plain"), 5);
    assert_eq!(visible_len("\x1b[31"), 0);
    assert_eq!(visible_len("\x1bx"), 2);
    assert_eq!(visible_len(""), 0);
}

#[test]
fn pad_cell_pads_to_visible_width() {
    assert_eq!(pad_cell("ab", 4), "ab  ");
    assert_eq!(pad_cell("abcdef", 4), "abcdef");
    assert_eq!(pad_cell("\x1b[31mab\x1b[39m", 3), "\x1b[31mab\x1b[39m ");
}

#[test]
fn hex_to_rgb_reads_palette_codes() {
    assert_eq!(hex_to_rgb("#cf8282"), Rgb(207, 130, 130));
    assert_eq!(hex_to_rgb("edb7ca"), Rgb(237, 183, 202));
}

#[test]
fn colorscheme_hex_codes() {
    assert_eq!(Colorscheme::Strawberry.hex(&Mode::Light), "#cf8282");
    assert_eq!(Colorscheme::Pink.hex(&Mode::Dark), "#edb7ca");
    assert_eq!(Colorscheme::Sky.hex(&Mode::Light), "#90cdde");
}

#[test]
fn color_as_str_is_lowercase_name() {
    assert_eq!(Color::of(Colorscheme::Blueberry).as_str(), "blueberry");
    assert_eq!(Color::of(Colorscheme::Lilac).as_str(), "lilac");
    assert_eq!(Color(String::from("foo")).as_str(), "foo");
    assert_eq!(Color::of(Colorscheme::Lilac).scheme(), Some(Colorscheme::Lilac));
    assert_eq!(Color(String::from("foo")).scheme(), None);
}

#[test]
fn colour_names_round_trip() {
    for c in Colorscheme::all() {
        assert_eq!(Colorscheme::from_name(c.name()), Some(c));
        assert_eq!(Colorscheme::from_json_name(c.json_name()), Some(c));
    }
    assert_eq!(Colorscheme::from_name("banana"), None);
}

#[test]
fn colorize_wraps_in_escape_codes() {
    assert_eq!(colorize("tag", Rgb(1, 22, 255)), "\x1b[38;2;1;22;255mtag\x1b[39m");
}

#[test]
fn parse_colors_cases() {
    assert_eq!(parse_colors(None), Vec::<Rgb>::new());
    assert_eq!(parse_colors(Some("  null ")), Vec::<Rgb>::new());
    assert_eq!(parse_colors(Some("[]")), Vec::<Rgb>::new());
    assert_eq!(parse_colors(Some("not json")), Vec::<Rgb>::new());
    assert_eq!(parse_colors(Some("[\"Banana\"]")), Vec::<Rgb>::new());
    assert_eq!(parse_colors(Some("[\"Strawberry\", \"Pink\"]")), vec![Rgb(207, 130, 130), Rgb(237, 183, 202)]);
}

#[test]
fn format_colored_without_colours() {
    assert_eq!(format_colored("work", None), "work");
    assert_eq!(format_colored("work", Some("[]")), "work");
}

#[test]
fn format_colored_one_colour() {
    assert_eq!(format_colored("ab", Some("[\"Strawberry\"]")), "\x1b[38;2;207;130;130mab\x1b[39m");
}

#[test]
fn format_colored_gradient() {
    let s = format_colored("ab", Some("[\"Strawberry\",\"Pink\"]"));
    assert_eq!(s, "\x1b[38;2;207;130;130ma\x1b[39m\x1b[38;2;237;183;202mb\x1b[39m");
    assert_eq!(format_colored("", Some("[\"Strawberry\",\"Pink\"]")), "");
}

#[test]
fn gradient_spreads_colours_evenly() {
    let cs = vec![Rgb(1, 1, 1), Rgb(2, 2, 2), Rgb(3, 3, 3)];
    let s = paint("abcd", &cs);
    // indices 0*3/4=0, 1*3/4=0, 2*3/4=1, 3*3/4=2
    let expected = format!(
        "{}{}{}{}",
        colorize("a", Rgb(1, 1, 1)),
        colorize("b", Rgb(1, 1, 1)),
        colorize("c", Rgb(2, 2, 2)),
        colorize("d", Rgb(3, 3, 3))
    );
    assert_eq!(s, expected);
}

#[test]
fn painted_width_is_name_width() {
    let names = ["", "x", "deep work", "ünïcode"];
    for name in names {
        for json in ["[]", "[\"Leaf\"]", "[\"Leaf\",\"Mint\",\"Sky\"]"] {
            let s = format_colored(name, Some(json));
            assert_eq!(visible_len(&s), name.chars().count());
        }
    }
}

#[test]
fn render_table_with_rows() {
    let headers = vec!["Tag".to_string()];
    let rows = vec![vec!["work".to_string()], vec!["x".to_string()]];
    let lines = render_table(&headers, &rows, Some("Tags"));
    assert_eq!(
        lines,
        vec![
            "Tags".to_string(),
            "+------+".to_string(),
            "| Tag  |".to_string(),
            "+------+".to_string(),
            "| work |".to_string(),
            "| x    |".to_string(),
            "+------+".to_string(),
        ]
    );
}

#[test]
fn render_table_empty() {
    let headers = vec!["Project".to_string()];
    let rows: Vec<Vec<String>> = Vec::new();
    let lines = render_table(&headers, &rows, None);
    assert_eq!(
        lines,
        vec![
            "+---------+".to_string(),
            "| Project |".to_string(),
            "+---------+".to_string(),
            "|(no entries)|".to_string(),
            "+---------+".to_string(),
        ]
    );
}

#[test]
fn render_table_centres_no_entries() {
    let headers = vec!["Name".to_string(), "Start".to_string(), "End".to_string()];
    let rows: Vec<Vec<String>> = Vec::new();
    let lines = render_table(&headers, &rows, None);
    // widths 4, 5, 3: total 4+3 + 5+3 + 3+3 - 1 = 20; pad 8: 4 left, 4 right
    assert_eq!(lines[3], "|    (no entries)    |");
    assert_eq!(lines[0], "+------+-------+-----+");
}

#[test]
fn render_table_short_rows_are_filled() {
    let headers = vec!["A".to_string(), "B".to_string()];
    let rows = vec![vec!["1".to_string()], vec!["1".to_string(), "22".to_string(), "333".to_string()]];
    let lines = render_table(&headers, &rows, None);
    assert_eq!(lines[0], "+---+----+-----+");
    assert_eq!(lines[1], "| A | B  |");
    assert_eq!(lines[3], "| 1 |    |     |");
    assert_eq!(lines[4], "| 1 | 22 | 333 |");
}

#[test]
fn coloured_rows_align_with_border() {
    let headers = vec!["Tag".to_string()];
    let rows = vec![
        vec![format_colored("focus", Some("[\"Grape\"]"))],
        vec![format_colored("reading", Some("[\"Grape\",\"Plum\"]"))],
        vec!["x".to_string()],
    ];
    let lines = render_table(&headers, &rows, None);
    let border = visible_len(&lines[0]);
    for line in &lines[3..6] {
        assert_eq!(visible_len(line), border);
    }
}

#[test]
fn header_and_empty_lines_align_with_border() {
    let headers = vec!["Name".to_string(), "Start".to_string(), "Tags".to_string()];
    let rows = vec![vec!["a".to_string(), format_colored("morning", Some("[\"Sky\"]"))]];
    let lines = render_table(&headers, &rows, None);
    let border = visible_len(&lines[0]);
    assert_eq!(visible_len(&lines[1]), border);
    assert_eq!(visible_len(&lines[3]), border);
    let empty = render_table(&headers, &Vec::new(), None);
    assert_eq!(visible_len(&empty[3]), visible_len(&empty[0]));
}

fn strip_codes(s: &str) -> String {
    let mut out = String::new();
    let mut in_code = false;
    for c in s.chars() {
        if in_code {
            if c == 'm' {
                in_code = false;
            }
        } else if c == '\x1b' {
            in_code = true;
        } else {
            out.push(c);
        }
    }
    out
}

#[test]
fn painted_name_strips_back_to_name() {
    let cs = vec![Rgb(1, 2, 3), Rgb(200, 100, 0), Rgb(9, 9, 9)];
    for name in ["", "a", "deep work", "ünïcode ✓"] {
        assert_eq!(strip_codes(&paint(name, &cs)), name);
        assert_eq!(strip_codes(&paint(name, &vec![])), name);
    }
}

#[test]
fn padding_a_text_with_a_lone_escape() {
    assert_eq!(pad_cell("ab\x1b", 5), "ab\x1b  ");
    assert_eq!(visible_len(&pad_cell("ab\x1b", 5)), 5);
}

#[test]
fn parse_colors_reads_the_object_form() {
    assert_eq!(parse_colors(Some("[{\"Strawberry\":null}]")), vec![Rgb(207, 130, 130)]);
    assert_eq!(
        parse_colors(Some("[ { \"Pink\" : null }, \"Strawberry\" ]")),
        vec![Rgb(237, 183, 202), Rgb(207, 130, 130)]
    );
    assert_eq!(parse_colors(Some("[{\"Strawberry\":1}]")), Vec::<Rgb>::new());
    assert_eq!(parse_colors(Some("[{\"Strawberry\":null,\"Pink\":null}]")), Vec::<Rgb>::new());
    assert_eq!(parse_colors(Some("[{}]")), Vec::<Rgb>::new());
    assert_eq!(parse_colors(Some("[1]")), Vec::<Rgb>::new());
    assert_eq!(parse_colors(Some("[\"strawberry\"]")), Vec::<Rgb>::new());
}

#[test]
fn colours_of_parsed_items() {
    let items = vec![
        JsonItem::Text(String::from("Strawberry")),
        JsonItem::Entries(vec![(String::from("Pink"), true)]),
    ];
    assert_eq!(colors_of_items(&items), Some(vec![Rgb(207, 130, 130), Rgb(237, 183, 202)]));
    assert_eq!(colors_of_items(&vec![JsonItem::Entries(vec![(String::from("Pink"), false)])]), None);
    assert_eq!(colors_of_items(&vec![JsonItem::Other]), None);
    assert_eq!(colors_of_items(&vec![]), Some(vec![]));
}

#[test]
fn visible_width_bounds_and_sums() {
    assert_eq!(visible_len("plain"), 5);
    assert!(visible_len("\x1b[31mab\x1b[39m") <= "\x1b[31mab\x1b[39m".chars().count());
    let a = "\x1b[1mx\x1b[0m";
    let b = "[y";
    assert_eq!(visible_len(&format!("{a}{b}")), visible_len(a) + visible_len(b));
    assert_eq!(visible_len("ab\x1b"), 3);
}
