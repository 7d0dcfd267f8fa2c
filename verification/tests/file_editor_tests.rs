use bookmarks::error::StoreError;
use bookmarks::file_editor::{
    append_to_file, delete_line_from_file, is_space_char, parse_records, split_lines,
    strip_trailing_newlines, trim_line, write_lines,
};

fn strings(items: &[&str]) -> Vec<String> {
    items.iter().map(|s| s.to_string()).collect()
}

#[test]
fn split_lines_on_newlines() {
    assert_eq!(split_lines("a\nb\nc\n"), strings(&["a", "b", "c"]));
    assert_eq!(split_lines("a\nb\nc"), strings(&["a", "b", "c"]));
    assert_eq!(split_lines(""), Vec::<String>::new());
    assert_eq!(split_lines("\n"), strings(&[""]));
    assert_eq!(split_lines("a\n\nb\n"), strings(&["a", "", "b"]));
    assert_eq!(split_lines("one line"), strings(&["one line"]));
}

#[test]
fn split_lines_agrees_with_std() {
    let samples = [
        "",
        "\n",
        "\n\n",
        "a",
        "a\n",
        "a\r\n",
        "a\r",
        "a\rb\n",
        "\r\n",
        "\r\r\n",
        "a\r\nb\r\n",
        "a\n\r\nb",
        "h\u{e9}llo\nw\u{f6}rld\n",
        " lead\ntrail \n",
    ];
    for sample in samples {
        let expected: Vec<String> = sample.lines().map(|l| l.to_string()).collect();
        assert_eq!(split_lines(sample), expected, "lines of {:?}", sample);
    }
}

#[test]
fn write_lines_ends_with_one_newline() {
    assert_eq!(write_lines(&strings(&["a", "b", "c"])), "a\nb\nc\n");
    assert_eq!(write_lines(&strings(&["a"])), "a\n");
    assert_eq!(write_lines(&strings(&[])), "\n");
    assert_eq!(write_lines(&strings(&["", ""])), "\n\n");
}

#[test]
fn delete_line_removes_the_line_at_the_index() {
    assert_eq!(delete_line_from_file("a\nb\nc\n", 1), Ok("a\nc\n".to_string()));
    assert_eq!(delete_line_from_file("a\nb\nc\n", 0), Ok("b\nc\n".to_string()));
    assert_eq!(delete_line_from_file("a\nb\nc\n", 2), Ok("a\nb\n".to_string()));
}

#[test]
fn delete_line_adds_missing_trailing_newline() {
    assert_eq!(delete_line_from_file("a\nb\nc", 0), Ok("b\nc\n".to_string()));
}

#[test]
fn delete_only_line_leaves_a_newline() {
    assert_eq!(delete_line_from_file("a\n", 0), Ok("\n".to_string()));
}

#[test]
fn delete_line_out_of_range_is_refused() {
    assert_eq!(
        delete_line_from_file("a\nb\n", 2),
        Err(StoreError::IndexOutOfRange)
    );
    assert_eq!(delete_line_from_file("", 0), Err(StoreError::IndexOutOfRange));
}

#[test]
fn delete_line_normalises_carriage_returns() {
    assert_eq!(
        delete_line_from_file("a\r\nb\r\nc\r\n", 1),
        Ok("a\nc\n".to_string())
    );
}

#[test]
fn append_adds_at_the_end() {
    assert_eq!(append_to_file("a\nb\n".to_string(), "x\n"), "a\nb\nx\n");
    assert_eq!(append_to_file(String::new(), "x\n"), "x\n");
    assert_eq!(append_to_file("a\n".to_string(), ""), "a\n");
}

#[test]
fn trim_line_removes_white_space_at_both_ends() {
    assert_eq!(trim_line("  a b \t"), "a b");
    assert_eq!(trim_line("a"), "a");
    assert_eq!(trim_line(""), "");
    assert_eq!(trim_line(" \t\r "), "");
    assert_eq!(trim_line("\u{a0}x\u{3000}"), "x");
    assert_eq!(trim_line("\u{2003}caf\u{e9}\u{2028}"), "caf\u{e9}");
}

#[test]
fn space_chars_agree_with_std() {
    let mut code: u32 = 0;
    while code <= 0x3100 {
        if let Some(c) = char::from_u32(code) {
            assert_eq!(is_space_char(c), c.is_whitespace(), "U+{:04X}", code);
        }
        code += 1;
    }
    assert!(!is_space_char('\u{200B}'));
    assert!(!is_space_char('\u{FEFF}'));
    assert!(!is_space_char('\u{10FFFF}'));
}

#[test]
fn parse_records_trims_and_skips_blank_lines() {
    assert_eq!(parse_records("a\nb\nc\n"), strings(&["a", "b", "c"]));
    assert_eq!(parse_records("  a \n\n \t\nb\r\nc"), strings(&["a", "b", "c"]));
    assert_eq!(parse_records(""), Vec::<String>::new());
    assert_eq!(parse_records("\n\n\n"), Vec::<String>::new());
    assert_eq!(parse_records("a\na\n"), strings(&["a", "a"]));
}

#[test]
fn strip_trailing_newlines_removes_only_newlines_at_the_end() {
    assert_eq!(strip_trailing_newlines("x"), "x");
    assert_eq!(strip_trailing_newlines("x\n"), "x");
    assert_eq!(strip_trailing_newlines("x\n\n\n"), "x");
    assert_eq!(strip_trailing_newlines("\nx\ny\n"), "\nx\ny");
    assert_eq!(strip_trailing_newlines("x \n"), "x ");
    assert_eq!(strip_trailing_newlines(""), "");
    assert_eq!(strip_trailing_newlines("\n"), "");
}

#[test]
fn written_lines_read_back() {
    let cases: [&[&str]; 4] = [&["a"], &["a", "b", "c"], &["", "x", ""], &[""]];
    for case in cases {
        let lines = strings(case);
        assert_eq!(split_lines(&write_lines(&lines)), lines);
    }
}

#[test]
fn appended_line_is_read_as_last() {
    let file = write_lines(&strings(&["a", "b"]));
    let after = append_to_file(file, "x\n");
    assert_eq!(split_lines(&after), strings(&["a", "b", "x"]));
    assert_eq!(split_lines(&append_to_file(String::new(), "x\n")), strings(&["x"]));
}

#[test]
fn parsed_records_are_clean_lines() {
    let records = parse_records(" a\r\n\r\n b \r\r\nc\r");
    assert_eq!(records, strings(&["a", "b", "c"]));
    for record in &records {
        assert!(!record.is_empty());
        assert!(!record.contains('\n'));
        assert!(!record.ends_with('\r'));
    }
    assert_eq!(split_lines(&write_lines(&records)), records);
}
