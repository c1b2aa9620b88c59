use module_loader::code_lines::CodeLines;
use module_loader::ui::{Selection, TextPos, UIError};

#[test]
fn from_str_splits_inclusively() {
    let c = CodeLines::from_str("ab\ncd");
    assert_eq!(c.lines, vec!["ab\n", "cd"]);
    assert_eq!(c.nr_of_chars, 5);
}

#[test]
fn from_str_trailing_newline_adds_empty_line() {
    let c = CodeLines::from_str("ab\n");
    assert_eq!(c.lines, vec!["ab\n", ""]);
    assert_eq!(c.nr_of_chars, 3);
}

#[test]
fn from_str_empty() {
    let c = CodeLines::from_str("");
    assert_eq!(c.lines.len(), 0);
    assert_eq!(c.nr_of_chars, 0);
}

#[test]
fn insert_between_line_inserts() {
    let mut c = CodeLines::from_str("ab\ncd");
    c.insert_between_line(1, 1, "XY").unwrap();
    assert_eq!(c.lines, vec!["ab\n", "cXYd"]);
    assert_eq!(c.nr_of_chars, 7);
}

#[test]
fn insert_between_line_out_of_bounds() {
    let mut c = CodeLines::from_str("ab");
    let err = c.insert_between_line(5, 0, "x").unwrap_err();
    match err {
        UIError::OutOfBounds { index, collection_name, len } => {
            assert_eq!(index, 5);
            assert_eq!(collection_name, "code_lines.lines".to_string());
            assert_eq!(len, 1);
        }
    }
}

#[test]
fn insert_empty_line_shifts() {
    let mut c = CodeLines::from_str("ab\ncd");
    c.insert_empty_line(1).unwrap();
    assert_eq!(c.lines, vec!["ab\n", "", "cd"]);
    assert!(c.insert_empty_line(9).is_err());
}

#[test]
fn del_at_line_removes_one_char() {
    let mut c = CodeLines::from_str("abc");
    c.del_at_line(0, 1).unwrap();
    assert_eq!(c.lines, vec!["ac"]);
    assert_eq!(c.nr_of_chars, 2);
}

#[test]
fn del_selection_same_line() {
    let mut c = CodeLines::from_str("abcdef");
    let sel = Selection {
        start_pos: TextPos { line: 0, column: 1 },
        end_pos: TextPos { line: 0, column: 4 },
    };
    c.del_selection(sel).unwrap();
    assert_eq!(c.lines, vec!["aef"]);
}

#[test]
fn del_selection_multiline_untouched() {
    let mut c = CodeLines::from_str("ab\ncd");
    let sel = Selection {
        start_pos: TextPos { line: 0, column: 1 },
        end_pos: TextPos { line: 1, column: 1 },
    };
    c.del_selection(sel).unwrap();
    assert_eq!(c.lines, vec!["ab\n", "cd"]);
}

#[test]
fn end_txt_pos_is_last_line_last_column() {
    let c = CodeLines::from_str("ab\ncde");
    assert_eq!(c.end_txt_pos(), TextPos { line: 1, column: 3 });
    let d = CodeLines::from_str("ab\n");
    assert_eq!(d.end_txt_pos(), TextPos { line: 1, column: 0 });
}

#[test]
fn line_is_only_newline_checks() {
    let c = CodeLines::from_str("\nab\n");
    assert_eq!(c.line_is_only_newline(0).unwrap(), true);
    assert_eq!(c.line_is_only_newline(1).unwrap(), false);
    assert!(c.line_is_only_newline(9).is_err());
}

#[test]
fn lines_accessors() {
    let c = CodeLines::from_str("ab\ncd");
    assert_eq!(c.get_line(0).unwrap(), "ab\n");
    assert_eq!(c.line_len(1).unwrap(), 2);
    assert_eq!(c.nr_of_lines(), 2);
    assert_eq!(c.nr_of_chars(), 5);
    assert!(c.is_last_line(1));
    assert!(!c.is_last_line(0));
    assert_eq!(c.last_char(0).unwrap(), Some('\n'));
    assert_eq!(CodeLines::from_str("x\n").last_char(1).unwrap(), None);
    assert_eq!(c.all_lines(), "ab\ncd".to_string());
}

#[test]
fn display_rows_spaces_and_escapes() {
    let c = CodeLines::from_str("ab\ncd");
    let backslash = 92u8 as char;
    let expected = format!("\na b {}n\nc d", backslash);
    assert_eq!(c.display_rows(), expected);
    let empty = CodeLines::from_str("");
    assert_eq!(empty.display_rows(), "".to_string());
}

#[test]
fn counts_are_characters_not_bytes() {
    // The buffer's deliberate accounting: a two-character text counts two,
    // whatever its byte length, and deleting one character takes exactly
    // one off the total.
    let mut c = CodeLines::from_str("é!");
    assert_eq!(c.nr_of_chars, 2);
    assert_eq!(c.line_len(0).unwrap(), 2);
    c.del_at_line(0, 0).unwrap();
    assert_eq!(c.lines, vec!["!"]);
    assert_eq!(c.nr_of_chars, 1);
}
