use resource_chart::file::{
    line_from_groups, ConfigLines, FileError, Line, LineAttribute, LineError, LineNode,
};

fn node(line_num: u32, indent: u32, name: &str) -> Line {
    Line::Node(LineNode { line_num, indent, name: name.to_string() })
}

fn attribute(key: &str, value: &str) -> Line {
    Line::Attribute(LineAttribute { key: key.to_string(), value: value.to_string() })
}

fn read(text: &str) -> Result<Vec<Line>, FileError> {
    let lines: Vec<String> = text.lines().map(|l| l.to_string()).collect();
    let mut config = ConfigLines::from_lines(&lines)?;
    let mut out = Vec::new();
    while let Some(line) = config.get_line() {
        out.push(line);
    }
    Ok(out)
}

fn groups(texts: &[Option<&str>]) -> Option<Vec<Option<String>>> {
    Some(texts.iter().map(|t| t.map(|s| s.to_string())).collect())
}

#[test]
fn file_new_line_constructors() {
    assert_eq!(Line::new_node_line(3, 2, "task"), node(3, 2, "task"));
    assert_eq!(Line::new_attribute_line("dev", "alice"), attribute("dev", "alice"));
}

#[test]
fn file_reads_nodes_with_their_indent() {
    assert_eq!(
        read("top\n  child\n\tdeep one\n").unwrap(),
        vec![node(1, 1, "top"), node(2, 3, "child"), node(3, 2, "deep one")]
    );
}

#[test]
fn file_reads_attributes_and_trims_their_values() {
    assert_eq!(
        read("task\n - dev:   alice  \n-plan:1, 2:3\n  -  note :  a b  c \t\n - empty:\n").unwrap(),
        vec![
            node(1, 1, "task"),
            attribute("dev", "alice"),
            attribute("plan", "1, 2:3"),
            attribute("note", "a b  c"),
            attribute("empty", ""),
        ]
    );
}

#[test]
fn file_skips_comments_and_blank_lines() {
    assert_eq!(
        read("# a plan\n\n   \ntask # the first\n - dev: alice # who\n#- dev: bob\n").unwrap(),
        vec![node(4, 1, "task "), attribute("dev", "alice")]
    );
}

#[test]
fn file_counts_the_indent_in_bytes() {
    assert_eq!(read("\u{2003}wide").unwrap(), vec![node(1, 4, "wide")]);
}

#[test]
fn file_takes_names_in_any_script() {
    assert_eq!(
        read("caf\u{e9} [1]/x_y\n - cl\u{e9}.a-b/c: v").unwrap(),
        vec![node(1, 1, "caf\u{e9} [1]/x_y"), attribute("cl\u{e9}.a-b/c", "v")]
    );
}

#[test]
fn file_section_names_are_nodes() {
    assert_eq!(read("[global]\n[devs]").unwrap(), vec![node(1, 1, "[global]"), node(2, 1, "[devs]")]);
}

#[test]
fn file_refuses_what_is_neither_node_nor_attribute() {
    assert_eq!(
        read("task\nwhat: is this\n"),
        Err(FileError { line_num: 2, error: LineError::Unparsable })
    );
    assert_eq!(read("a.b\n"), Err(FileError { line_num: 1, error: LineError::Unparsable }));
    assert_eq!(read("ok\n\n - key value\n"), Err(FileError { line_num: 3, error: LineError::Unparsable }));
    assert_eq!(read("- : value\n"), Err(FileError { line_num: 1, error: LineError::Unparsable }));
}

#[test]
fn file_peek_does_not_read() {
    let mut config = ConfigLines::new();
    assert_eq!(config.peek_line(), None);
    assert_eq!(config.get_line(), None);
    config.add_line(node(1, 1, "a"));
    config.add_line(attribute("k", "v"));
    assert_eq!(config.peek_line(), Some(node(1, 1, "a")));
    assert_eq!(config.peek_line(), Some(node(1, 1, "a")));
    assert_eq!(config.get_line(), Some(node(1, 1, "a")));
    assert_eq!(config.peek_line(), Some(attribute("k", "v")));
    assert_eq!(config.get_line(), Some(attribute("k", "v")));
    assert_eq!(config.get_line(), None);
    assert_eq!(config.peek_line(), None);
}

#[test]
fn file_process_line_keeps_what_a_line_says() {
    let mut config = ConfigLines::new();
    assert_eq!(config.process_line("  # nothing", 1), Ok(()));
    assert_eq!(config.process_line(" task", 2), Ok(()));
    assert_eq!(config.process_line("=", 3), Err(LineError::Unparsable));
    assert_eq!(config.process_line(" - a: b ", 4), Ok(()));
    assert_eq!(config.get_line(), Some(node(2, 2, "task")));
    assert_eq!(config.get_line(), Some(attribute("a", "b")));
    assert_eq!(config.get_line(), None);
}

#[test]
fn file_line_from_groups_prefers_the_node() {
    assert_eq!(
        line_from_groups(7, groups(&[Some("  n"), Some("  "), Some("n")]), None),
        Ok(node(7, 3, "n"))
    );
    assert_eq!(
        line_from_groups(
            7,
            groups(&[Some("n"), Some(""), Some("n")]),
            groups(&[Some("- k: v"), Some("k"), Some("v")])
        ),
        Ok(node(7, 1, "n"))
    );
    assert_eq!(
        line_from_groups(7, None, groups(&[Some("- k:  v "), Some("k"), Some(" v ")])),
        Ok(attribute("k", "v"))
    );
}

#[test]
fn file_line_from_groups_refuses_groups_of_another_shape() {
    assert_eq!(line_from_groups(1, None, None), Err(LineError::Unparsable));
    assert_eq!(line_from_groups(1, groups(&[Some("n"), Some("")]), None), Err(LineError::Unparsable));
    assert_eq!(
        line_from_groups(1, groups(&[Some("n"), None, Some("n")]), None),
        Err(LineError::Unparsable)
    );
    assert_eq!(
        line_from_groups(1, None, groups(&[Some("x"), Some("k"), None])),
        Err(LineError::Unparsable)
    );
    assert_eq!(
        line_from_groups(1, groups(&[Some("n")]), groups(&[Some("- k: v"), Some("k"), Some("v")])),
        Err(LineError::Unparsable)
    );
}

#[test]
fn file_trims_white_space_of_every_script() {
    assert_eq!(
        read("- k: \u{a0}\u{3000}v w\u{2003}\u{2028}\t \u{85}").unwrap(),
        vec![attribute("k", "v w")]
    );
    // A zero-width space is no white space.
    assert_eq!(
        read("- k: v\u{200b} ").unwrap(),
        vec![attribute("k", "v\u{200b}")]
    );
    assert_eq!(
        line_from_groups(1, None, groups(&[Some("x"), Some("k"), Some("\u{1680}\u{205f}\u{202f}")])),
        Ok(attribute("k", ""))
    );
    assert_eq!(
        line_from_groups(1, None, groups(&[Some("x"), Some("k"), Some("\u{b}a\u{c}b\r\n")])),
        Ok(attribute("k", "a\u{c}b"))
    );
}
