use covdir::numeral::decimal_text;
use covdir::{fmt_number, write_output, write_summary, JsonNumber, Node};

fn sample_root() -> Node {
    Node {
        name: String::default(),
        lines_covered: 12,
        lines_missed: 34,
        lines_total: 46,
        coverage_percent: JsonNumber { unsigned: None, text: "12.34".to_string() },
        children: Vec::default(),
    }
}

#[test]
fn fmt_number_short() {
    assert_eq!(fmt_number(123), "123");
}

#[test]
fn fmt_number_medium() {
    assert_eq!(fmt_number(1234), "1,234");
}

#[test]
fn fmt_number_long() {
    assert_eq!(fmt_number(1234567890), "1,234,567,890");
}

#[test]
fn fmt_number_zero() {
    assert_eq!(fmt_number(0), "0");
}

#[test]
fn fmt_number_around_a_thousand() {
    assert_eq!(fmt_number(9), "9");
    assert_eq!(fmt_number(10), "10");
    assert_eq!(fmt_number(999), "999");
    assert_eq!(fmt_number(1000), "1,000");
    assert_eq!(fmt_number(1001), "1,001");
    assert_eq!(fmt_number(10000), "10,000");
    assert_eq!(fmt_number(100000), "100,000");
    assert_eq!(fmt_number(999999), "999,999");
    assert_eq!(fmt_number(1000000), "1,000,000");
    assert_eq!(fmt_number(1002003), "1,002,003");
}

#[test]
fn fmt_number_largest() {
    assert_eq!(fmt_number(4294967295), "4,294,967,295");
    let digits = usize::MAX.to_string();
    let text = fmt_number(usize::MAX);
    assert_eq!(text.replace(',', ""), digits);
    assert_eq!(text.len(), digits.len() + (digits.len() - 1) / 3);
}

#[test]
fn fmt_number_has_the_shape_of_a_grouped_numeral() {
    let samples: [usize; 12] =
        [0, 7, 42, 100, 999, 1000, 12345, 123456, 1234567, 99999999, 100000000, 4000000000];
    for n in samples {
        let text = fmt_number(n);
        let chars: Vec<char> = text.chars().collect();
        assert!(chars.iter().all(|c| *c == ',' || c.is_ascii_digit()));
        assert_eq!(text.replace(',', ""), n.to_string());
        for (i, c) in chars.iter().enumerate() {
            let from_right = chars.len() - 1 - i;
            assert_eq!(*c == ',', from_right % 4 == 3);
        }
        assert_ne!(chars[0], ',');
    }
}

#[test]
fn decimal_text_is_the_plain_numeral() {
    assert_eq!(decimal_text(0), "0");
    assert_eq!(decimal_text(46), "46");
    assert_eq!(decimal_text(1234567890), "1234567890");
    assert_eq!(decimal_text(usize::MAX), usize::MAX.to_string());
}

#[test]
fn write_output_ok() {
    let root = sample_root();
    let percent: f32 = 12.34;

    let mut buf = String::default();

    write_output(&mut buf, &root, &format!("{}", percent));

    assert_eq!(
        buf,
        "lines_covered=12\nlines_missed=34\nlines_total=46\ncoverage_percent=12.34\n"
    );
}

#[test]
fn write_output_has_four_lines_in_order() {
    let root = sample_root();
    let mut buf = String::default();
    write_output(&mut buf, &root, "12.34");
    let lines: Vec<&str> = buf.lines().collect();
    assert_eq!(
        lines,
        vec!["lines_covered=12", "lines_missed=34", "lines_total=46", "coverage_percent=12.34"]
    );
}

#[test]
fn write_output_does_not_group_its_numbers() {
    let mut root = sample_root();
    root.lines_covered = 1234567;
    root.lines_missed = 1000;
    root.lines_total = 1235567;
    let mut buf = String::default();
    write_output(&mut buf, &root, "99.9");
    assert_eq!(
        buf,
        "lines_covered=1234567\nlines_missed=1000\nlines_total=1235567\ncoverage_percent=99.9\n"
    );
}

#[test]
fn write_output_appends_to_what_is_there() {
    let root = sample_root();
    let mut buf = String::from("before\n");
    write_output(&mut buf, &root, "0");
    assert_eq!(
        buf,
        "before\nlines_covered=12\nlines_missed=34\nlines_total=46\ncoverage_percent=0\n"
    );
}

#[test]
fn write_summary_ok() {
    let root = sample_root();
    let percent: f32 = 12.34;

    let mut buf = String::default();

    write_summary(&mut buf, &root, "Line coverage", &format!("{:.0}", percent.round()));

    assert_eq!(
        buf,
        "| Line coverage: | 12% |\n|:---|:---|\n| Lines covered: | 12 |\n| Lines missed: | 34 |\n| Total lines: | 46 |\n"
    );
}

#[test]
fn write_summary_is_a_table_of_five_lines() {
    let root = sample_root();
    let mut buf = String::default();
    write_summary(&mut buf, &root, "Line coverage", "12");
    let lines: Vec<&str> = buf.lines().collect();
    assert_eq!(lines.len(), 5);
    assert_eq!(lines[0], "| Line coverage: | 12% |");
    assert_eq!(lines[1], "|:---|:---|");
    assert_eq!(lines[2], "| Lines covered: | 12 |");
    assert_eq!(lines[3], "| Lines missed: | 34 |");
    assert_eq!(lines[4], "| Total lines: | 46 |");
}

#[test]
fn write_summary_groups_its_numbers() {
    let mut root = sample_root();
    root.lines_covered = 1234567;
    root.lines_missed = 1000;
    root.lines_total = 1235567;
    let mut buf = String::default();
    write_summary(&mut buf, &root, "", "100");
    assert_eq!(
        buf,
        "| : | 100% |\n|:---|:---|\n| Lines covered: | 1,234,567 |\n| Lines missed: | 1,000 |\n| Total lines: | 1,235,567 |\n"
    );
}

#[test]
fn renderings_do_not_look_at_children() {
    let mut root = sample_root();
    let mut plain = String::default();
    write_output(&mut plain, &root, "12.34");
    let mut table = String::default();
    write_summary(&mut table, &root, "T", "12");

    let mut child = sample_root();
    child.lines_covered = 999999;
    root.children.push(("src".to_string(), child));

    let mut plain_again = String::default();
    write_output(&mut plain_again, &root, "12.34");
    let mut table_again = String::default();
    write_summary(&mut table_again, &root, "T", "12");
    assert_eq!(plain, plain_again);
    assert_eq!(table, table_again);
}
