use tablify::align::{parse_format_spec, Alignment};
use tablify::render::{format_row, format_separator};
use tablify::table::{format_table, render, Options};
use tablify::text::{parse_usize_token, split_on_char, trim};

fn opts() -> Options {
    Options {
        separator: None,
        separator_pattern: None,
        header: false,
        columns: None,
        format: None,
    }
}

fn run(input: &str, args: &Options) -> String {
    let lines: Vec<String> = input.lines().map(|l| l.to_string()).collect();
    render(&lines, args).expect("valid configuration")
}

#[test]
fn test_basic_tab_separated() {
    let out = run("apple\t100\norange\t200", &opts());
    assert_eq!(out, "| apple  | 100 |\n| orange | 200 |\n");
}

#[test]
fn test_custom_separator() {
    let mut args = opts();
    args.separator = Some(' ');
    let out = run("apple 100\norange 200", &args);
    assert_eq!(out, "| apple  | 100 |\n| orange | 200 |\n");
}

#[test]
fn test_header_option() {
    let mut args = opts();
    args.header = true;
    let out = run("item\tprice\napple\t100\norange\t200", &args);
    assert_eq!(
        out,
        "| item   | price |\n+--------+-------+\n| apple  | 100   |\n| orange | 200   |\n"
    );
}

#[test]
fn test_custom_columns() {
    let mut args = opts();
    args.columns = Some("fruit,price".to_string());
    let out = run("apple\t100\norange\t200", &args);
    assert_eq!(
        out,
        "| fruit  | price |\n+--------+-------+\n| apple  | 100   |\n| orange | 200   |\n"
    );
}

#[test]
fn test_regex_pattern() {
    let mut args = opts();
    args.separator_pattern = Some("\\s+".to_string());
    let out = run("apple   100\norange  200", &args);
    assert_eq!(out, "| apple  | 100 |\n| orange | 200 |\n");
}

#[test]
fn test_full_width_characters() {
    let out = run("りんご\t100\nオレンジ\t200", &opts());
    assert_eq!(out, "| りんご   | 100 |\n| オレンジ | 200 |\n");
}

#[test]
fn test_column_formatting_basic() {
    let mut args = opts();
    args.format = Some("1:left,2:right".to_string());
    let out = run("apple\t100\norange\t200", &args);
    assert_eq!(out, "| apple  | 100 |\n| orange | 200 |\n");
}

#[test]
fn test_column_formatting_center() {
    let mut args = opts();
    args.format = Some("1:left,2:right,3:center".to_string());
    let out = run("apple\t100\tgood\norange\t200\tbad", &args);
    assert_eq!(out, "| apple  | 100 | good |\n| orange | 200 | bad  |\n");
}

#[test]
fn test_column_formatting_with_header() {
    let mut args = opts();
    args.header = true;
    args.format = Some("1:left,2:right,3:center".to_string());
    let out = run(
        "item\tprice\trating\napple\t100\tgood\norange\t200\tbad",
        &args,
    );
    assert_eq!(
        out,
        "| item   | price | rating |\n+--------+-------+--------+\n| apple  |   100 |  good  |\n| orange |   200 |  bad   |\n"
    );
}

#[test]
fn test_column_formatting_partial_spec() {
    let mut args = opts();
    args.format = Some("2:right".to_string());
    let out = run("apple\t100\tgood\norange\t200\tbad", &args);
    assert_eq!(out, "| apple  | 100 | good |\n| orange | 200 | bad  |\n");
}

#[test]
fn test_column_formatting_with_full_width() {
    let mut args = opts();
    args.format = Some("1:center,2:right".to_string());
    let out = run("りんご\t100\nオレンジ\t200", &args);
    assert_eq!(out, "|  りんご  | 100 |\n| オレンジ | 200 |\n");
}

#[test]
fn invalid_pattern_is_rejected() {
    let mut args = opts();
    args.separator_pattern = Some("(".to_string());
    let lines: Vec<String> = vec!["apple\t100".to_string()];
    assert!(render(&lines, &args).is_none());
}

#[test]
fn empty_input_renders_nothing() {
    let lines: Vec<String> = Vec::new();
    let out = render(&lines, &opts()).unwrap();
    assert_eq!(out, "");
}

#[test]
fn ragged_rows_are_padded_not_truncated() {
    let out = run("a\tb\tc\nx", &opts());
    assert_eq!(out, "| a | b | c |\n| x |   |   |\n");
}

#[test]
fn adjacent_separators_make_empty_cells() {
    let out = run("a\t\tb", &opts());
    assert_eq!(out, "| a |  | b |\n");
}

#[test]
fn columns_list_longer_than_data() {
    let mut args = opts();
    args.columns = Some("one,two,three".to_string());
    let out = run("x", &args);
    assert_eq!(out, "| one |\n+-----+\n| x   |\n");
}

#[test]
fn header_line_count_matches() {
    let mut args = opts();
    args.header = true;
    let out = run("h1\th2\na\tb\nc\td\ne\tf", &args);
    // three data lines, a header and a separator
    assert_eq!(out.lines().count(), 5);
}

#[test]
fn no_header_line_count_matches() {
    let out = run("a\nb\nc", &opts());
    assert_eq!(out.lines().count(), 3);
}

#[test]
fn all_lines_have_equal_display_width() {
    let mut args = opts();
    args.header = true;
    args.format = Some("2:right,3:center".to_string());
    let out = run("名前\t価格\t評価\nりんご\t100\tgood\nx\t9\tすごい", &args);
    let widths: Vec<usize> = out
        .lines()
        .map(|l| unicode_width::UnicodeWidthStr::width(l))
        .collect();
    assert!(widths.len() == 4);
    assert!(widths.iter().all(|w| *w == widths[0]));
}

#[test]
fn format_spec_last_entry_wins() {
    let m = parse_format_spec(&Some("1:left,1:right".to_string()));
    assert_eq!(m.get(0), Alignment::Right);
}

#[test]
fn format_spec_is_case_insensitive() {
    let m = parse_format_spec(&Some("1:RIGHT,2:Center".to_string()));
    assert_eq!(m.get(0), Alignment::Right);
    assert_eq!(m.get(1), Alignment::Center);
}

#[test]
fn format_spec_tolerates_whitespace() {
    let m = parse_format_spec(&Some(" 1 : right , 2 : center ".to_string()));
    assert_eq!(m.get(0), Alignment::Right);
    assert_eq!(m.get(1), Alignment::Center);
}

#[test]
fn format_spec_drops_malformed_entries() {
    let m = parse_format_spec(&Some("0:right,abc:center,5,:left,2:right".to_string()));
    assert_eq!(m.get(0), Alignment::Left);
    assert_eq!(m.get(1), Alignment::Right);
    assert_eq!(m.get(4), Alignment::Left);
}

#[test]
fn format_spec_unknown_mode_means_left() {
    let m = parse_format_spec(&Some("1:middle".to_string()));
    assert_eq!(m.get(0), Alignment::Left);
}

#[test]
fn format_spec_overflowing_column_is_dropped() {
    let m = parse_format_spec(&Some("99999999999999999999999:right".to_string()));
    assert_eq!(m.get(0), Alignment::Left);
}

#[test]
fn format_spec_absent_means_all_left() {
    let m = parse_format_spec(&None);
    assert_eq!(m.get(0), Alignment::Left);
    assert_eq!(m.get(7), Alignment::Left);
}

#[test]
fn split_keeps_empty_cells() {
    let cells = split_on_char("a,,b,", ',');
    let views: Vec<&str> = cells.iter().map(|c| c.as_str()).collect();
    assert_eq!(views, vec!["a", "", "b", ""]);
}

#[test]
fn split_of_empty_line_is_one_empty_cell() {
    let cells = split_on_char("", ',');
    let views: Vec<&str> = cells.iter().map(|c| c.as_str()).collect();
    assert_eq!(views, vec![""]);
}

#[test]
fn trim_strips_unicode_white_space() {
    assert_eq!(trim("  x \t"), "x");
    assert_eq!(trim("\u{3000}x\u{3000}"), "x");
    assert_eq!(trim(""), "");
    assert_eq!(trim("   "), "");
}

#[test]
fn numeric_tokens_parse_like_std() {
    assert_eq!(parse_usize_token("12"), Some(12));
    assert_eq!(parse_usize_token("+12"), Some(12));
    assert_eq!(parse_usize_token("007"), Some(7));
    assert_eq!(parse_usize_token(""), None);
    assert_eq!(parse_usize_token("+"), None);
    assert_eq!(parse_usize_token("-1"), None);
    assert_eq!(parse_usize_token("1 2"), None);
    assert_eq!(parse_usize_token("99999999999999999999999"), None);
}

#[test]
fn format_table_empty_rows_render_nothing() {
    let rows: Vec<Vec<String>> = Vec::new();
    let m = parse_format_spec(&None);
    let out = format_table(rows, &opts(), &m);
    assert_eq!(out, "");
}

#[test]
fn separator_line_matches_widths() {
    let widths: Vec<usize> = vec![3, 1];
    assert_eq!(format_separator(&widths), "+-----+---+\n");
    let none: Vec<usize> = Vec::new();
    assert_eq!(format_separator(&none), "+\n");
}

#[test]
fn row_rendering_pads_to_widths() {
    let row: Vec<String> = vec!["ab".to_string(), "c".to_string()];
    let widths: Vec<usize> = vec![4, 3];
    let m = parse_format_spec(&Some("2:right".to_string()));
    assert_eq!(format_row(&row, &widths, &m), "| ab   |   c |\n");
}

#[test]
fn pattern_takes_precedence_over_separator() {
    let mut args = opts();
    args.separator = Some(',');
    args.separator_pattern = Some(";".to_string());
    let out = run("a;b", &args);
    assert_eq!(out, "| a | b |\n");
}
